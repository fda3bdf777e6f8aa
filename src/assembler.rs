//! The text assembler: one instruction per line.
//!
//! A first pass splits the text into lines, strips `;;` comments and blank lines,
//! and records each label declared by a trailing `<- name`, mapped to the index of
//! the instruction on its line. A second pass reads each remaining line as an
//! instruction, with label references replaced by their indices.
use crate::frontend::parser::line_end;
use crate::frontend::parser::scan_line_end;
use crate::frontend::token::{
    all_digits,
    all_digits_in,
    chars_of,
    digits_value,
    float_text,
    is_digit,
    is_float_text,
    spells,
};
use crate::vm::bytecode::ByteCode;
use crate::vm::object::ObjType;
use crate::vm::value::Value;
use std::rc::Rc;
use crate::chars::{is_white, is_word_char, white_char, word_char};
use vstd::prelude::*;
use vstd::string::{StrSliceExecFns, StringExecFns};

verus! {

#[derive(Clone, Debug, PartialEq)]
pub enum AsmError {
    /// The line, counted among instruction lines from zero, is no instruction.
    UnknownInstruction(usize),
    /// A number on the line does not fit its operand.
    BadNumber(usize),
    /// The line refers to a label that no line declares.
    UnknownLabel(usize),
    /// A decimal literal whose binary64 value was not given.
    UnknownFloat(String),
}

pub open spec fn is_ws(c: char) -> bool {
    is_white(c)
}

pub open spec fn drop_cr(l: Seq<char>) -> Seq<char> {
    if l.len() > 0 && l.last() == '\r' {
        l.drop_last()
    } else {
        l
    }
}

/// The lines of a text: split at line feeds, without a final carriage return.
pub open spec fn split_lines(s: Seq<char>) -> Seq<Seq<char>>
    decreases s.len(),
{
    let k = line_end(s, 0);
    if 0 <= k < s.len() {
        seq![drop_cr(s.subrange(0, k))] + split_lines(s.subrange(k + 1, s.len() as int))
    } else {
        seq![drop_cr(s)]
    }
}

/// Where the run of whitespace that ends at position `p` starts.
pub open spec fn ws_start(l: Seq<char>, p: int) -> int
    decreases p,
{
    if 0 < p <= l.len() && is_ws(l[p - 1]) {
        ws_start(l, p - 1)
    } else {
        p
    }
}

/// The first `;;` at or after `from` with at least one character after it.
pub open spec fn first_comment(l: Seq<char>, from: int) -> Option<int>
    decreases l.len() - from,
{
    if from < 0 || from + 2 >= l.len() {
        None
    } else if l[from] == ';' && l[from + 1] == ';' {
        Some(from)
    } else {
        first_comment(l, from + 1)
    }
}

/// The line without its comment and the whitespace before it.
pub open spec fn strip_comment(l: Seq<char>) -> Seq<char> {
    match first_comment(l, 0) {
        Some(p) => l.subrange(0, ws_start(l, p)),
        None => l,
    }
}

pub open spec fn is_blank(l: Seq<char>) -> bool {
    forall|i: int| 0 <= i < l.len() ==> is_ws(#[trigger] l[i])
}

/// The first `<- ` at or after `from` that follows whitespace and precedes a name.
pub open spec fn first_arrow(l: Seq<char>, from: int) -> Option<int>
    decreases l.len() - from,
{
    if from < 1 || from + 3 >= l.len() {
        None
    } else if is_ws(l[from - 1]) && l[from] == '<' && l[from + 1] == '-' && l[from + 2] == ' ' {
        Some(from)
    } else {
        first_arrow(l, from + 1)
    }
}

/// The instruction lines and the labels, each with the index of its instruction.
pub open spec fn preprocess(lines: Seq<Seq<char>>) -> (Seq<Seq<char>>, Seq<(Seq<char>, usize)>)
    decreases lines.len(),
{
    if lines.len() == 0 {
        (Seq::empty(), Seq::empty())
    } else {
        let (ps, ls) = preprocess(lines.drop_last());
        let l = strip_comment(lines.last());
        if is_blank(l) {
            (ps, ls)
        } else {
            match first_arrow(l, 1) {
                Some(p) => (
                    ps.push(l.subrange(0, ws_start(l, p))),
                    ls.push((l.subrange(p + 3, l.len() as int), ps.len() as usize)),
                ),
                None => (ps.push(l), ls),
            }
        }
    }
}

/// The index of the label `name`; a later declaration wins.
pub open spec fn find_label(ls: Seq<(Seq<char>, usize)>, name: Seq<char>) -> Option<usize>
    decreases ls.len(),
{
    if ls.len() == 0 {
        None
    } else if ls.last().0 == name {
        Some(ls.last().1)
    } else {
        find_label(ls.drop_last(), name)
    }
}

pub open spec fn find_bits(fv: Seq<(Seq<char>, u64)>, text: Seq<char>) -> Option<u64>
    decreases fv.len(),
{
    if fv.len() == 0 {
        None
    } else if fv.last().0 == text {
        Some(fv.last().1)
    } else {
        find_bits(fv.drop_last(), text)
    }
}

/// An instruction without operand.
pub open spec fn mnemonic(l: Seq<char>) -> Option<ByteCode> {
    if l == "HALT"@ {
        Some(ByteCode::HALT)
    } else if l == "pop"@ {
        Some(ByteCode::Pop)
    } else if l == "dup"@ {
        Some(ByteCode::Dup)
    } else if l == "swap"@ {
        Some(ByteCode::Swap)
    } else if l == "ret"@ {
        Some(ByteCode::Ret)
    } else if l == ">"@ {
        Some(ByteCode::Greater)
    } else if l == "<"@ {
        Some(ByteCode::Less)
    } else if l == ">="@ {
        Some(ByteCode::GreaterEq)
    } else if l == "<="@ {
        Some(ByteCode::LessEq)
    } else if l == "=="@ {
        Some(ByteCode::Eq)
    } else if l == "!="@ {
        Some(ByteCode::Neq)
    } else if l == "==="@ {
        Some(ByteCode::StrictEq)
    } else if l == "!=="@ {
        Some(ByteCode::StrictNeq)
    } else if l == "+"@ {
        Some(ByteCode::Add)
    } else if l == "-"@ {
        Some(ByteCode::Sub)
    } else if l == "*"@ {
        Some(ByteCode::Mul)
    } else if l == "/"@ {
        Some(ByteCode::Div)
    } else if l == "%"@ {
        Some(ByteCode::Rem)
    } else if l == "++"@ {
        Some(ByteCode::Inc)
    } else if l == "--"@ {
        Some(ByteCode::Dec)
    } else if l == "&"@ {
        Some(ByteCode::And)
    } else if l == "|"@ {
        Some(ByteCode::Or)
    } else if l == "!"@ {
        Some(ByteCode::Not)
    } else if l == "^"@ {
        Some(ByteCode::Xor)
    } else {
        None
    }
}

/// The instruction that a mnemonic with an index operand makes, if `m` is one;
/// the second component says whether the operand may also be a label.
pub open spec fn indexed(m: Seq<char>, n: usize) -> Option<(ByteCode, bool)> {
    if m == "jmp"@ {
        Some((ByteCode::Jmp(n), true))
    } else if m == "pop_jmp_if"@ {
        Some((ByteCode::PopJmpIf(n), true))
    } else if m == "pop_jmp_if_not"@ {
        Some((ByteCode::PopJmpIfNot(n), true))
    } else if m == "call"@ {
        Some((ByteCode::Call(n), true))
    } else if m == "get"@ {
        Some((ByteCode::Get(n), false))
    } else if m == "set"@ {
        Some((ByteCode::Store(n), false))
    } else if m == "collect_list"@ {
        Some((ByteCode::CollectList(n), false))
    } else {
        None
    }
}

/// An optional minus sign, then digits.
pub open spec fn is_int_text(a: Seq<char>) -> bool {
    all_digits(a) || (a.len() > 1 && a[0] == '-' && all_digits(a.drop_first()))
}

pub open spec fn int_text_value(a: Seq<char>) -> int {
    if a.len() > 0 && a[0] == '-' {
        -digits_value(a.drop_first())
    } else {
        digits_value(a)
    }
}

/// An optional minus sign, digits, a point, digits.
pub open spec fn is_decimal_text(a: Seq<char>) -> bool {
    if a.len() > 0 && a[0] == '-' {
        is_float_text(a.drop_first())
    } else {
        is_float_text(a)
    }
}

/// The first space of the line.
pub open spec fn first_space(l: Seq<char>, from: int) -> int
    decreases l.len() - from,
{
    if from < 0 || from >= l.len() || l[from] == ' ' {
        from
    } else {
        first_space(l, from + 1)
    }
}

pub open spec fn prefix_is(l: Seq<char>, w: Seq<char>) -> bool {
    w.len() <= l.len() && l.subrange(0, w.len() as int) == w
}

/// Whether `r` is what the instruction line `l`, the `i`-th, assembles to.
pub open spec fn line_ok(
    l: Seq<char>,
    i: usize,
    ls: Seq<(Seq<char>, usize)>,
    fv: Seq<(Seq<char>, u64)>,
    r: Result<ByteCode, AsmError>,
) -> bool {
    match mnemonic(l) {
        Some(b) => r == Ok::<ByteCode, AsmError>(b),
        None => if prefix_is(l, "push "@) {
            let a = l.subrange(5, l.len() as int);
            if is_int_text(a) {
                if i64::MIN <= int_text_value(a) <= i64::MAX {
                    r == Ok::<ByteCode, AsmError>(ByteCode::Push(Value::Int(int_text_value(a) as i64)))
                } else {
                    r == Err::<ByteCode, AsmError>(AsmError::BadNumber(i))
                }
            } else if is_decimal_text(a) {
                match find_bits(fv, a) {
                    Some(bits) => r == Ok::<ByteCode, AsmError>(ByteCode::Push(Value::Float(bits))),
                    None => r is Err && r->Err_0 is UnknownFloat && r->Err_0->UnknownFloat_0@ == a,
                }
            } else if a.len() == 3 && a[0] == '\'' && a[2] == '\'' && is_word_char(a[1]) {
                r == Ok::<ByteCode, AsmError>(ByteCode::Push(Value::Char(a[1] as u32)))
            } else if a.len() >= 3 && a[0] == '"' && a.last() == '"' {
                &&& r is Ok
                &&& r->Ok_0 is Push
                &&& r->Ok_0->Push_0 is Ref
                &&& *(r->Ok_0->Push_0->Ref_0) is Str
                &&& (*(r->Ok_0->Push_0->Ref_0))->Str_0@ == a.subrange(1, a.len() - 1)
            } else {
                r == Err::<ByteCode, AsmError>(AsmError::UnknownInstruction(i))
            }
        } else if prefix_is(l, "copy -"@) && all_digits(l.subrange(6, l.len() as int)) {
            let n = digits_value(l.subrange(6, l.len() as int));
            if n <= usize::MAX {
                r == Ok::<ByteCode, AsmError>(ByteCode::Copy(n as usize))
            } else {
                r == Err::<ByteCode, AsmError>(AsmError::BadNumber(i))
            }
        } else {
            let sp = first_space(l, 0);
            let m = l.subrange(0, sp);
            let a = l.subrange(sp + 1, l.len() as int);
            if sp < l.len() && indexed(m, 0) is Some && a.len() > 0 {
                if all_digits(a) {
                    if digits_value(a) <= usize::MAX {
                        r == Ok::<ByteCode, AsmError>(indexed(m, digits_value(a) as usize)->Some_0.0)
                    } else {
                        r == Err::<ByteCode, AsmError>(AsmError::BadNumber(i))
                    }
                } else if indexed(m, 0)->Some_0.1 {
                    match find_label(ls, a) {
                        Some(t) => r == Ok::<ByteCode, AsmError>(indexed(m, t)->Some_0.0),
                        None => r == Err::<ByteCode, AsmError>(AsmError::UnknownLabel(i)),
                    }
                } else {
                    r == Err::<ByteCode, AsmError>(AsmError::UnknownInstruction(i))
                }
            } else {
                r == Err::<ByteCode, AsmError>(AsmError::UnknownInstruction(i))
            }
        }
    }
}

pub open spec fn lines_view(v: Seq<(usize, usize)>, s: Seq<char>) -> Seq<Seq<char>> {
    v.map_values(|p: (usize, usize)| s.subrange(p.0 as int, p.1 as int))
}

pub open spec fn labels_view(v: Seq<(usize, usize, usize)>, s: Seq<char>) -> Seq<(Seq<char>, usize)> {
    v.map_values(|p: (usize, usize, usize)| (s.subrange(p.0 as int, p.1 as int), p.2))
}

pub open spec fn floats_view(fs: Seq<(String, u64)>) -> Seq<(Seq<char>, u64)> {
    fs.map_values(|p: (String, u64)| (p.0@, p.1))
}

pub open spec fn labels_in(v: Seq<(usize, usize, usize)>, n: int) -> bool {
    forall|k: int| 0 <= k < v.len() ==> #[trigger] v[k].0 <= v[k].1 <= n
}

pub open spec fn spans_in(v: Seq<(usize, usize)>, n: int) -> bool {
    forall|k: int| 0 <= k < v.len() ==> #[trigger] v[k].0 <= v[k].1 <= n
}

proof fn lemma_line_end_shift(s: Seq<char>, a: int, j: int)
    requires
        0 <= a <= s.len(),
        0 <= j,
    ensures
        line_end(s.subrange(a, s.len() as int), j) == line_end(s, a + j) - a,
    decreases s.len() - a - j,
{
    let t = s.subrange(a, s.len() as int);
    if j < t.len() && t[j] != '\n' {
        lemma_line_end_shift(s, a, j + 1);
    }
}

proof fn lemma_line_end_bounds(s: Seq<char>, j: int)
    requires
        0 <= j <= s.len(),
    ensures
        j <= line_end(s, j) <= s.len(),
        line_end(s, j) < s.len() ==> s[line_end(s, j)] == '\n',
    decreases s.len() - j,
{
    if j < s.len() && s[j] != '\n' {
        lemma_line_end_bounds(s, j + 1);
    }
}

/// The lines of the text, as spans of character positions.
fn split_spans(v: &Vec<char>) -> (r: Vec<(usize, usize)>)
    ensures
        lines_view(r@, v@) == split_lines(v@),
        spans_in(r@, v@.len() as int),
{
    let n = v.len();
    let mut acc: Vec<(usize, usize)> = Vec::new();
    let mut start: usize = 0;
    let mut done = false;
    assert(lines_view(acc@, v@) + split_lines(v@.subrange(0, n as int)) =~= split_lines(v@)) by {
        assert(v@.subrange(0, n as int) =~= v@);
    }
    while !done
        invariant
            n == v@.len(),
            start <= n,
            spans_in(acc@, n as int),
            !done ==> split_lines(v@) == lines_view(acc@, v@) + split_lines(
                v@.subrange(start as int, n as int),
            ),
            done ==> split_lines(v@) == lines_view(acc@, v@),
        decreases n - start + if done { 0int } else { 1int },
    {
        let k = scan_line_end(v, start);
        let ghost t = v@.subrange(start as int, n as int);
        proof {
            lemma_line_end_shift(v@, start as int, 0);
            lemma_line_end_bounds(v@, start as int);
        }
        let mut e = k;
        if e > start && v[e - 1] == '\r' {
            e = e - 1;
        }
        let ghost before = acc@;
        assert(start <= e <= n);
        acc.push((start, e));
        assert(spans_in(acc@, n as int)) by {
            assert forall|j: int| 0 <= j < acc@.len() implies #[trigger] acc@[j].0 <= acc@[j].1 <= n by {
                if j < before.len() {
                    assert(acc@[j] == before[j]);
                }
            }
        }
        proof {
            assert(lines_view(acc@, v@) =~= lines_view(before, v@).push(v@.subrange(start as int, e as int)));
            if (k as int) < (n as int) {
                assert(t.subrange(0, k - start) =~= v@.subrange(start as int, k as int));
                assert(t.subrange(k - start + 1, t.len() as int) =~= v@.subrange(k + 1, n as int));
                assert(drop_cr(t.subrange(0, k - start)) =~= v@.subrange(start as int, e as int));
            } else {
                assert(t =~= v@.subrange(start as int, k as int));
                assert(drop_cr(t) =~= v@.subrange(start as int, e as int));
            }
        }
        if k >= n {
            done = true;
            proof {
                assert(lines_view(before, v@) + seq![v@.subrange(start as int, e as int)] =~= lines_view(acc@, v@));
            }
        } else {
            proof {
                assert(lines_view(before, v@) + (seq![v@.subrange(start as int, e as int)] + split_lines(
                    v@.subrange(k + 1, n as int),
                )) =~= lines_view(acc@, v@) + split_lines(v@.subrange(k + 1, n as int)));
            }
            start = k + 1;
        }
    }
    acc
}

fn is_ws_char(c: char) -> (r: bool)
    ensures
        r == is_ws(c),
{
    white_char(c)
}

fn ws_start_of(v: &Vec<char>, a: usize, p: usize) -> (r: usize)
    requires
        a <= p <= v@.len(),
    ensures
        a + ws_start(v@.subrange(a as int, v@.len() as int), p - a) == r,
        a <= r <= p,
{
    let ghost l = v@.subrange(a as int, v@.len() as int);
    let mut q = p;
    while q > a && is_ws_char(v[q - 1])
        invariant
            a <= q <= p,
            p <= v@.len(),
            l == v@.subrange(a as int, v@.len() as int),
            ws_start(l, p - a) == ws_start(l, q - a),
        decreases q,
    {
        q = q - 1;
    }
    q
}

/// The end of the line `[a, b)` once its comment is stripped.
fn comment_cut(v: &Vec<char>, a: usize, b: usize) -> (r: usize)
    requires
        a <= b <= v@.len(),
    ensures
        a <= r <= b,
        v@.subrange(a as int, r as int) == strip_comment(v@.subrange(a as int, b as int)),
{
    let ghost l = v@.subrange(a as int, b as int);
    let mut p = a;
    while b - p > 2 && !(v[p] == ';' && v[p + 1] == ';')
        invariant
            a <= p <= b,
            b <= v@.len(),
            l == v@.subrange(a as int, b as int),
            first_comment(l, 0) == first_comment(l, p - a),
        decreases b - p,
    {
        p = p + 1;
    }
    if b - p > 2 {
        let q = ws_start_of(v, a, p);
        proof {
            lemma_ws_start_prefix(v@, a as int, b as int, p - a);
        }
        assert(v@.subrange(a as int, q as int) =~= l.subrange(0, q - a));
        q
    } else {
        b
    }
}

proof fn lemma_ws_start_prefix(s: Seq<char>, a: int, b: int, p: int)
    requires
        0 <= a <= b <= s.len(),
        0 <= p <= b - a,
    ensures
        ws_start(s.subrange(a, s.len() as int), p) == ws_start(s.subrange(a, b), p),
    decreases p,
{
    if p > 0 {
        lemma_ws_start_prefix(s, a, b, p - 1);
    }
}

fn blank(v: &Vec<char>, a: usize, b: usize) -> (r: bool)
    requires
        a <= b <= v@.len(),
    ensures
        r == is_blank(v@.subrange(a as int, b as int)),
{
    let mut i = a;
    while i < b
        invariant
            a <= i <= b,
            b <= v@.len(),
            forall|k: int| a <= k < i ==> is_ws(#[trigger] v@[k]),
        decreases b - i,
    {
        if !is_ws_char(v[i]) {
            assert(!is_ws(v@.subrange(a as int, b as int)[i - a]));
            return false;
        }
        i = i + 1;
    }
    assert forall|k: int| 0 <= k < b - a implies is_ws(#[trigger] v@.subrange(a as int, b as int)[k]) by {
        assert(is_ws(v@[a + k]));
    }
    true
}

/// Where the line `[a, b)` declares a label, if it does.
fn arrow_at(v: &Vec<char>, a: usize, b: usize) -> (r: Option<usize>)
    requires
        a <= b <= v@.len(),
    ensures
        match r {
            Some(p) => a <= p && p + 3 < b && first_arrow(v@.subrange(a as int, b as int), 1) == Some(p - a),
            None => first_arrow(v@.subrange(a as int, b as int), 1) is None,
        },
{
    let ghost l = v@.subrange(a as int, b as int);
    if b - a < 4 {
        return None;
    }
    let mut p = a + 1;
    while b - p > 3 && !(is_ws_char(v[p - 1]) && v[p] == '<' && v[p + 1] == '-' && v[p + 2] == ' ')
        invariant
            a + 1 <= p <= b,
            b <= v@.len(),
            l == v@.subrange(a as int, b as int),
            first_arrow(l, 1) == first_arrow(l, p - a),
        decreases b - p,
    {
        p = p + 1;
    }
    if b - p > 3 {
        Some(p)
    } else {
        None
    }
}

fn slice(v: &Vec<char>, a: usize, b: usize) -> (r: Vec<char>)
    requires
        a <= b <= v@.len(),
    ensures
        r@ == v@.subrange(a as int, b as int),
{
    let mut r: Vec<char> = Vec::new();
    let mut i = a;
    while i < b
        invariant
            a <= i <= b,
            b <= v@.len(),
            r@ == v@.subrange(a as int, i as int),
        decreases b - i,
    {
        r.push(v[i]);
        i = i + 1;
        assert(r@ =~= v@.subrange(a as int, i as int));
    }
    r
}

proof fn lemma_digits_prefix_grows(s: Seq<char>, i: int, j: int)
    requires
        0 <= i <= j <= s.len(),
        forall|k: int| 0 <= k < s.len() ==> is_digit(#[trigger] s[k]),
    ensures
        0 <= digits_value(s.subrange(0, i)) <= digits_value(s.subrange(0, j)),
    decreases j,
{
    if j > 0 {
        assert(s.subrange(0, j).drop_last() =~= s.subrange(0, j - 1));
        if i < j {
            lemma_digits_prefix_grows(s, i, j - 1);
        } else {
            lemma_digits_prefix_grows(s, i - 1, j - 1);
        }
    }
}

/// The value of the digits `v[from..]` if they are all digits and the value is
/// at most `limit`.
fn decimal_in(v: &Vec<char>, from: usize, limit: u64) -> (r: Option<u64>)
    requires
        from <= v@.len(),
    ensures
        r == (if all_digits(v@.subrange(from as int, v@.len() as int)) && digits_value(
            v@.subrange(from as int, v@.len() as int),
        ) <= limit {
            Some(digits_value(v@.subrange(from as int, v@.len() as int)) as u64)
        } else {
            None
        }),
        r matches Some(x) ==> x as int == digits_value(v@.subrange(from as int, v@.len() as int)),
{
    let n = v.len();
    if !all_digits_in(v, from, n) {
        return None;
    }
    let ghost d = v@.subrange(from as int, n as int);
    let mut val: u64 = 0;
    let mut i: usize = from;
    while i < n
        invariant
            from <= i <= n,
            n == v@.len(),
            d == v@.subrange(from as int, n as int),
            all_digits(d),
            val as int == digits_value(d.subrange(0, i - from)),
            val <= limit,
        decreases n - i,
    {
        assert(is_digit(d[i - from]));
        let c = v[i];
        assert(c == d[i - from]);
        let dg = (c as u32 - '0' as u32) as u64;
        assert(0 <= dg <= 9);
        assert(d.subrange(0, i - from + 1).drop_last() =~= d.subrange(0, i - from));
        if dg > limit || val > (limit - dg) / 10 {
            proof {
                if dg <= limit {
                    assert(val * 10 + dg > limit) by (nonlinear_arith)
                        requires
                            val > (limit - dg) / 10,
                            0 <= dg <= 9,
                            dg <= limit,
                    ;
                }
                lemma_digits_prefix_grows(d, i - from + 1, d.len() as int);
                assert(d =~= d.subrange(0, d.len() as int));
            }
            return None;
        }
        assert(val * 10 + dg <= limit) by (nonlinear_arith)
            requires
                val <= (limit - dg) / 10,
                0 <= dg <= 9,
                dg <= limit,
        ;
        val = val * 10 + dg;
        i = i + 1;
    }
    assert(d =~= d.subrange(0, d.len() as int));
    Some(val)
}

fn has_prefix(l: &Vec<char>, w: &str) -> (r: bool)
    ensures
        r == prefix_is(l@, w@),
{
    let n = w.unicode_len();
    if n > l.len() {
        return false;
    }
    let head = slice(l, 0, n);
    spells(&head, w)
}

fn mnemonic_of(l: &Vec<char>) -> (r: Option<ByteCode>)
    ensures
        r == mnemonic(l@),
{
    if spells(l, "HALT") {
        Some(ByteCode::HALT)
    } else if spells(l, "pop") {
        Some(ByteCode::Pop)
    } else if spells(l, "dup") {
        Some(ByteCode::Dup)
    } else if spells(l, "swap") {
        Some(ByteCode::Swap)
    } else if spells(l, "ret") {
        Some(ByteCode::Ret)
    } else if spells(l, ">") {
        Some(ByteCode::Greater)
    } else if spells(l, "<") {
        Some(ByteCode::Less)
    } else if spells(l, ">=") {
        Some(ByteCode::GreaterEq)
    } else if spells(l, "<=") {
        Some(ByteCode::LessEq)
    } else if spells(l, "==") {
        Some(ByteCode::Eq)
    } else if spells(l, "!=") {
        Some(ByteCode::Neq)
    } else if spells(l, "===") {
        Some(ByteCode::StrictEq)
    } else if spells(l, "!==") {
        Some(ByteCode::StrictNeq)
    } else if spells(l, "+") {
        Some(ByteCode::Add)
    } else if spells(l, "-") {
        Some(ByteCode::Sub)
    } else if spells(l, "*") {
        Some(ByteCode::Mul)
    } else if spells(l, "/") {
        Some(ByteCode::Div)
    } else if spells(l, "%") {
        Some(ByteCode::Rem)
    } else if spells(l, "++") {
        Some(ByteCode::Inc)
    } else if spells(l, "--") {
        Some(ByteCode::Dec)
    } else if spells(l, "&") {
        Some(ByteCode::And)
    } else if spells(l, "|") {
        Some(ByteCode::Or)
    } else if spells(l, "!") {
        Some(ByteCode::Not)
    } else if spells(l, "^") {
        Some(ByteCode::Xor)
    } else {
        None
    }
}

fn indexed_of(m: &Vec<char>, n: usize) -> (r: Option<(ByteCode, bool)>)
    ensures
        r == indexed(m@, n),
{
    if spells(m, "jmp") {
        Some((ByteCode::Jmp(n), true))
    } else if spells(m, "pop_jmp_if") {
        Some((ByteCode::PopJmpIf(n), true))
    } else if spells(m, "pop_jmp_if_not") {
        Some((ByteCode::PopJmpIfNot(n), true))
    } else if spells(m, "call") {
        Some((ByteCode::Call(n), true))
    } else if spells(m, "get") {
        Some((ByteCode::Get(n), false))
    } else if spells(m, "set") {
        Some((ByteCode::Store(n), false))
    } else if spells(m, "collect_list") {
        Some((ByteCode::CollectList(n), false))
    } else {
        None
    }
}

fn same_text(v: &Vec<char>, a1: usize, b1: usize, a2: usize, b2: usize) -> (r: bool)
    requires
        a1 <= b1 <= v@.len(),
        a2 <= b2 <= v@.len(),
    ensures
        r == (v@.subrange(a1 as int, b1 as int) == v@.subrange(a2 as int, b2 as int)),
{
    if b1 - a1 != b2 - a2 {
        assert(v@.subrange(a1 as int, b1 as int).len() != v@.subrange(a2 as int, b2 as int).len());
        return false;
    }
    let mut k: usize = 0;
    while k < b1 - a1
        invariant
            a1 <= b1 <= v@.len(),
            a2 <= b2 <= v@.len(),
            b1 - a1 == b2 - a2,
            k <= b1 - a1,
            forall|j: int| 0 <= j < k ==> v@.subrange(a1 as int, b1 as int)[j] == #[trigger] v@.subrange(a2 as int, b2 as int)[j],
        decreases b1 - a1 - k,
    {
        if v[a1 + k] != v[a2 + k] {
            assert(v@.subrange(a1 as int, b1 as int)[k as int] != v@.subrange(a2 as int, b2 as int)[k as int]);
            return false;
        }
        k = k + 1;
    }
    assert(v@.subrange(a1 as int, b1 as int) =~= v@.subrange(a2 as int, b2 as int));
    true
}

fn text_is(v: &Vec<char>, a: usize, b: usize, s: &String) -> (r: bool)
    requires
        a <= b <= v@.len(),
    ensures
        r == (v@.subrange(a as int, b as int) == s@),
{
    let w = slice(v, a, b);
    spells(&w, s.as_str())
}

fn label_index(v: &Vec<char>, labels: &Vec<(usize, usize, usize)>, x: usize, y: usize) -> (r: Option<usize>)
    requires
        x <= y <= v@.len(),
        labels_in(labels@, v@.len() as int),
    ensures
        r == find_label(labels_view(labels@, v@), v@.subrange(x as int, y as int)),
{
    let ghost lv = labels_view(labels@, v@);
    let mut k = labels.len();
    assert(lv.subrange(0, k as int) =~= lv);
    while k > 0
        invariant
            k <= labels@.len(),
            x <= y <= v@.len(),
            lv == labels_view(labels@, v@),
            labels_in(labels@, v@.len() as int),
            find_label(lv, v@.subrange(x as int, y as int)) == find_label(
                lv.subrange(0, k as int),
                v@.subrange(x as int, y as int),
            ),
        decreases k,
    {
        assert(lv.subrange(0, k as int).drop_last() =~= lv.subrange(0, k - 1));
        let (p, q, t) = labels[k - 1];
        assert(labels@[k - 1] == (p, q, t));
        if same_text(v, p, q, x, y) {
            return Some(t);
        }
        k = k - 1;
    }
    None
}

fn float_bits(v: &Vec<char>, x: usize, y: usize, floats: &Vec<(String, u64)>) -> (r: Option<u64>)
    requires
        x <= y <= v@.len(),
    ensures
        r == find_bits(floats_view(floats@), v@.subrange(x as int, y as int)),
{
    let ghost fv = floats_view(floats@);
    let mut k = floats.len();
    assert(fv.subrange(0, k as int) =~= fv);
    while k > 0
        invariant
            k <= floats@.len(),
            x <= y <= v@.len(),
            fv == floats_view(floats@),
            find_bits(fv, v@.subrange(x as int, y as int)) == find_bits(
                fv.subrange(0, k as int),
                v@.subrange(x as int, y as int),
            ),
        decreases k,
    {
        assert(fv.subrange(0, k as int).drop_last() =~= fv.subrange(0, k - 1));
        if text_is(v, x, y, &floats[k - 1].0) {
            return Some(floats[k - 1].1);
        }
        k = k - 1;
    }
    None
}

/// The line assembles without error.
pub open spec fn line_assembles(
    l: Seq<char>,
    i: usize,
    ls: Seq<(Seq<char>, usize)>,
    fv: Seq<(Seq<char>, u64)>,
) -> bool {
    exists|b: ByteCode| #[trigger] line_ok(l, i, ls, fv, Ok(b))
}

fn first_space_of(l: &Vec<char>) -> (r: usize)
    ensures
        r == first_space(l@, 0),
        r <= l@.len(),
{
    let mut k: usize = 0;
    while k < l.len() && l[k] != ' '
        invariant
            k <= l@.len(),
            first_space(l@, 0) == first_space(l@, k as int),
        decreases l@.len() - k,
    {
        k = k + 1;
    }
    k
}

/// Assembles the instruction line `v[a..b]`, the `i`-th instruction line.
fn assemble_line(
    text: &str,
    v: &Vec<char>,
    a: usize,
    b: usize,
    i: usize,
    labels: &Vec<(usize, usize, usize)>,
    floats: &Vec<(String, u64)>,
) -> (r: Result<ByteCode, AsmError>)
    requires
        text@ == v@,
        a <= b <= v@.len(),
        labels_in(labels@, v@.len() as int),
    ensures
        line_ok(v@.subrange(a as int, b as int), i, labels_view(labels@, v@), floats_view(floats@), r),
{
    let l = slice(v, a, b);
    let n = l.len();
    if let Some(op) = mnemonic_of(&l) {
        return Ok(op);
    }
    proof {
        reveal_strlit("push ");
        reveal_strlit("copy -");
    }
    if has_prefix(&l, "push ") {
        let ghost arg = l@.subrange(5, n as int);
        assert(arg == v@.subrange(a + 5, b as int));
        if all_digits_in(&l, 5, n) {
            assert(is_digit(arg[0]));
            assert(int_text_value(arg) == digits_value(arg));
            let parsed = decimal_in(&l, 5, 9223372036854775807u64);
            return match parsed {
                Some(x) => {
                    assert(x as int == digits_value(arg));
                    Ok(ByteCode::Push(Value::Int(x as i64)))
                },
                None => Err(AsmError::BadNumber(i)),
            };
        }
        if n > 6 && l[5] == '-' && all_digits_in(&l, 6, n) {
            assert(arg.drop_first() =~= l@.subrange(6, n as int));
            let parsed = decimal_in(&l, 6, 9223372036854775808u64);
            return match parsed {
                Some(x) => {
                    assert(x as int == digits_value(arg.drop_first()));
                    assert(x <= 9223372036854775808u64);
                    let val: i64 = if x == 9223372036854775808u64 {
                        i64::MIN
                    } else {
                        assert(x < 9223372036854775808u64);
                        -(x as i64)
                    };
                    Ok(ByteCode::Push(Value::Int(val)))
                },
                None => Err(AsmError::BadNumber(i)),
            };
        }
        proof {
            if n > 6 && l@[5] == '-' {
                assert(arg.drop_first() =~= l@.subrange(6, n as int));
            }
        }
        let start = if n > 5 && l[5] == '-' {
            6
        } else {
            5
        };
        let w = slice(&l, start, n);
        proof {
            if n > 5 && l@[5] == '-' {
                assert(w@ =~= arg.drop_first());
            } else {
                assert(w@ =~= arg);
            }
        }
        if float_text(&w) {
            return match float_bits(v, a + 5, b, floats) {
                Some(bits) => Ok(ByteCode::Push(Value::Float(bits))),
                None => Err(AsmError::UnknownFloat(String::from_str(text.substring_char(a + 5, b)))),
            };
        }
        if n == 8 && l[5] == '\'' && l[7] == '\'' && word_char(l[6]) {
            return Ok(ByteCode::Push(Value::Char(l[6] as u32)));
        }
        if n >= 8 && l[5] == '"' && l[n - 1] == '"' {
            assert(arg.subrange(1, arg.len() - 1) =~= v@.subrange(a + 6, b - 1));
            let inner = String::from_str(text.substring_char(a + 6, b - 1));
            return Ok(ByteCode::Push(Value::Ref(Rc::new(ObjType::Str(inner)))));
        }
        return Err(AsmError::UnknownInstruction(i));
    }
    if has_prefix(&l, "copy -") && all_digits_in(&l, 6, n) {
        return match decimal_in(&l, 6, usize::MAX as u64) {
            Some(x) => Ok(ByteCode::Copy(x as usize)),
            None => Err(AsmError::BadNumber(i)),
        };
    }
    let sp = first_space_of(&l);
    let m = slice(&l, 0, sp);
    if sp < n && indexed_of(&m, 0).is_some() && n - (sp + 1) > 0 {
        if all_digits_in(&l, sp + 1, n) {
            return match decimal_in(&l, sp + 1, usize::MAX as u64) {
                Some(x) => match indexed_of(&m, x as usize) {
                    Some((op, _)) => Ok(op),
                    None => Err(AsmError::UnknownInstruction(i)),
                },
                None => Err(AsmError::BadNumber(i)),
            };
        }
        let takes_label = match indexed_of(&m, 0) {
            Some((_, t)) => t,
            None => false,
        };
        if takes_label {
            assert(l@.subrange(sp + 1, n as int) =~= v@.subrange(a + sp + 1, b as int));
            return match label_index(v, labels, a + sp + 1, b) {
                Some(t) => match indexed_of(&m, t) {
                    Some((op, _)) => Ok(op),
                    None => Err(AsmError::UnknownInstruction(i)),
                },
                None => Err(AsmError::UnknownLabel(i)),
            };
        }
        return Err(AsmError::UnknownInstruction(i));
    }
    Err(AsmError::UnknownInstruction(i))
}

/// The instruction lines, as spans, and the labels, as spans with the index of
/// their instruction.
fn pre_process(v: &Vec<char>, lines: &Vec<(usize, usize)>) -> (r: (
    Vec<(usize, usize)>,
    Vec<(usize, usize, usize)>,
))
    requires
        spans_in(lines@, v@.len() as int),
    ensures
        (lines_view(r.0@, v@), labels_view(r.1@, v@)) == preprocess(lines_view(lines@, v@)),
        spans_in(r.0@, v@.len() as int),
        labels_in(r.1@, v@.len() as int),
{
    let ghost all = lines_view(lines@, v@);
    let mut ps: Vec<(usize, usize)> = Vec::new();
    let mut ls: Vec<(usize, usize, usize)> = Vec::new();
    let mut i: usize = 0;
    assert(all.subrange(0, 0) =~= Seq::<Seq<char>>::empty());
    assert(lines_view(ps@, v@) =~= Seq::<Seq<char>>::empty());
    assert(labels_view(ls@, v@) =~= Seq::<(Seq<char>, usize)>::empty());
    while i < lines.len()
        invariant
            i <= lines@.len(),
            all == lines_view(lines@, v@),
            spans_in(lines@, v@.len() as int),
            spans_in(ps@, v@.len() as int),
            labels_in(ls@, v@.len() as int),
            (lines_view(ps@, v@), labels_view(ls@, v@)) == preprocess(all.subrange(0, i as int)),
        decreases lines@.len() - i,
    {
        let (a, b) = lines[i];
        assert(lines@[i as int] == (a, b));
        assert(all.subrange(0, i + 1).drop_last() =~= all.subrange(0, i as int));
        assert(all.subrange(0, i + 1).last() == v@.subrange(a as int, b as int));
        assert(a <= b && b <= v@.len());
        let cut = comment_cut(v, a, b);
        let ghost l = v@.subrange(a as int, cut as int);
        if !blank(v, a, cut) {
            match arrow_at(v, a, cut) {
                Some(p) => {
                    let q = ws_start_of(v, a, p);
                    proof {
                        lemma_ws_start_prefix(v@, a as int, cut as int, p - a);
                    }
                    let ghost ps0 = ps@;
                    let ghost ls0 = ls@;
                    let idx = ps.len();
                    assert(a <= q && q <= p && p + 3 < cut && cut <= v@.len());
                    ps.push((a, q));
                    ls.push((p + 3, cut, idx));
                    assert(labels_in(ls@, v@.len() as int)) by {
                        assert forall|j: int| 0 <= j < ls@.len() implies #[trigger] ls@[j].0 <= ls@[j].1 <= v@.len() by {
                            if j < ls0.len() {
                                assert(ls@[j] == ls0[j]);
                            } else {
                                assert(ls@[j] == ((p + 3) as usize, cut, idx));
                            }
                        }
                    }
                    assert(spans_in(ps@, v@.len() as int)) by {
                        assert forall|j: int| 0 <= j < ps@.len() implies #[trigger] ps@[j].0 <= ps@[j].1 <= v@.len() by {
                            if j < ps0.len() {
                                assert(ps@[j] == ps0[j]);
                            } else {
                                assert(ps@[j] == (a, q));
                            }
                        }
                    }
                    assert(v@.subrange(a as int, q as int) =~= l.subrange(0, q - a));
                    assert(v@.subrange(p + 3, cut as int) =~= l.subrange(p - a + 3, l.len() as int));
                    assert(lines_view(ps@, v@) =~= lines_view(ps0, v@).push(v@.subrange(a as int, q as int)));
                    assert(labels_view(ls@, v@) =~= labels_view(ls0, v@).push(
                        (v@.subrange(p + 3, cut as int), idx),
                    ));
                },
                None => {
                    let ghost ps0 = ps@;
                    assert(a <= cut && cut <= v@.len());
                    ps.push((a, cut));
                    assert(spans_in(ps@, v@.len() as int)) by {
                        assert forall|j: int| 0 <= j < ps@.len() implies #[trigger] ps@[j].0 <= ps@[j].1 <= v@.len() by {
                            if j < ps0.len() {
                                assert(ps@[j] == ps0[j]);
                            } else {
                                assert(ps@[j] == (a, cut));
                            }
                        }
                    }
                    assert(lines_view(ps@, v@) =~= lines_view(ps0, v@).push(l));
                },
            }
        }
        i = i + 1;
    }
    assert(all.subrange(0, lines@.len() as int) =~= all);
    (ps, ls)
}

/// Assembles a program text. `floats` gives the binary64 values of its decimal
/// literals, as bit patterns; a literal without one is an `UnknownFloat` error.
pub fn compile_to_enum(file_content: String, floats: &Vec<(String, u64)>) -> (r: Result<
    Vec<ByteCode>,
    AsmError,
>)
    ensures
        ({
            let (ps, ls) = preprocess(split_lines(file_content@));
            let fv = floats_view(floats@);
            match r {
                Ok(code) => code@.len() == ps.len() && forall|i: int|
                    0 <= i < ps.len() ==> #[trigger] line_ok(ps[i], i as usize, ls, fv, Ok(code@[i])),
                Err(e) => exists|i: int|
                    0 <= i < ps.len() && #[trigger] line_ok(ps[i], i as usize, ls, fv, Err(e))
                        && forall|j: int| 0 <= j < i ==> #[trigger] line_assembles(ps[j], j as usize, ls, fv),
            }
        }),
{
    let v = chars_of(file_content.as_str());
    let lines = split_spans(&v);
    let (ps, ls) = pre_process(&v, &lines);
    let ghost pv = lines_view(ps@, v@);
    let ghost lv = labels_view(ls@, v@);
    let ghost fv = floats_view(floats@);
    let mut prog: Vec<ByteCode> = Vec::new();
    let mut i: usize = 0;
    assert(pv == preprocess(split_lines(file_content@)).0);
    assert(lv == preprocess(split_lines(file_content@)).1);
    while i < ps.len()
        invariant
            pv == preprocess(split_lines(file_content@)).0,
            lv == preprocess(split_lines(file_content@)).1,
            i <= ps@.len(),
            v@ == file_content@,
            pv == lines_view(ps@, v@),
            lv == labels_view(ls@, v@),
            fv == floats_view(floats@),
            spans_in(ps@, v@.len() as int),
            labels_in(ls@, v@.len() as int),
            prog@.len() == i,
            forall|j: int| 0 <= j < i ==> #[trigger] line_ok(pv[j], j as usize, lv, fv, Ok(prog@[j])),
        decreases ps@.len() - i,
    {
        let (a, b) = ps[i];
        assert(ps@[i as int] == (a, b));
        assert(pv[i as int] == v@.subrange(a as int, b as int));
        let res = assemble_line(file_content.as_str(), &v, a, b, i, &ls, floats);
        match res {
            Ok(op) => {
                prog.push(op);
            },
            Err(e) => {
                assert forall|j: int| 0 <= j < i implies #[trigger] line_assembles(pv[j], j as usize, lv, fv) by {
                    assert(line_ok(pv[j], j as usize, lv, fv, Ok(prog@[j])));
                }
                assert(line_ok(pv[i as int], i as usize, lv, fv, Err(e)));
                return Err(e);
            },
        }
        i = i + 1;
    }
    assert(pv.len() == ps@.len());
    Ok(prog)
}

pub open spec fn digit_char(d: nat) -> char {
    if d == 0 { '0' } else if d == 1 { '1' } else if d == 2 { '2' } else if d == 3 { '3' } else if d == 4 { '4' }
    else if d == 5 { '5' } else if d == 6 { '6' } else if d == 7 { '7' } else if d == 8 { '8' } else { '9' }
}

/// The decimal digits of `n`.
pub open spec fn decimal(n: nat) -> Seq<char>
    decreases n,
{
    if n < 10 {
        seq![digit_char(n)]
    } else {
        decimal(n / 10).push(digit_char(n % 10))
    }
}

proof fn lemma_decimal(n: nat)
    ensures
        all_digits(decimal(n)),
        digits_value(decimal(n)) == n,
        forall|k: int| 0 <= k < decimal(n).len() ==> #[trigger] decimal(n)[k] != ' ',
    decreases n,
{
    if n < 10 {
        assert(seq![digit_char(n)].drop_last() =~= Seq::<char>::empty());
        assert(digit_char(n) as int - '0' as int == n);
        assert(decimal(n) == seq![digit_char(n)]);
        assert(digits_value(Seq::<char>::empty()) == 0);
        assert(digits_value(seq![digit_char(n)]) == n);
    } else {
        lemma_decimal(n / 10);
        let s = decimal(n / 10);
        let t = s.push(digit_char(n % 10));
        assert(t.drop_last() =~= s);
        assert(digit_char((n % 10) as nat) as int - '0' as int == n % 10);
        assert(digits_value(t) == digits_value(s) * 10 + (n % 10));
        assert(n == (n / 10) * 10 + n % 10);
        assert(decimal(n) == t);
        assert forall|k: int| 0 <= k < t.len() implies is_digit(#[trigger] t[k]) by {
            if k < s.len() {
                assert(t[k] == s[k]);
            }
        }
    }
}

/// The mnemonic of an instruction without operand.
pub open spec fn bare_text(b: ByteCode) -> Option<Seq<char>> {
    match b {
        ByteCode::HALT => Some("HALT"@),
        ByteCode::Pop => Some("pop"@),
        ByteCode::Dup => Some("dup"@),
        ByteCode::Swap => Some("swap"@),
        ByteCode::Ret => Some("ret"@),
        ByteCode::Greater => Some(">"@),
        ByteCode::Less => Some("<"@),
        ByteCode::GreaterEq => Some(">="@),
        ByteCode::LessEq => Some("<="@),
        ByteCode::Eq => Some("=="@),
        ByteCode::Neq => Some("!="@),
        ByteCode::StrictEq => Some("==="@),
        ByteCode::StrictNeq => Some("!=="@),
        ByteCode::Add => Some("+"@),
        ByteCode::Sub => Some("-"@),
        ByteCode::Mul => Some("*"@),
        ByteCode::Div => Some("/"@),
        ByteCode::Rem => Some("%"@),
        ByteCode::Inc => Some("++"@),
        ByteCode::Dec => Some("--"@),
        ByteCode::And => Some("&"@),
        ByteCode::Or => Some("|"@),
        ByteCode::Not => Some("!"@),
        ByteCode::Xor => Some("^"@),
        _ => None,
    }
}

/// The mnemonic of an instruction with an index operand.
pub open spec fn indexed_text(b: ByteCode) -> Option<(Seq<char>, usize)> {
    match b {
        ByteCode::Jmp(n) => Some(("jmp"@, n)),
        ByteCode::PopJmpIf(n) => Some(("pop_jmp_if"@, n)),
        ByteCode::PopJmpIfNot(n) => Some(("pop_jmp_if_not"@, n)),
        ByteCode::Call(n) => Some(("call"@, n)),
        ByteCode::Get(n) => Some(("get"@, n)),
        ByteCode::Store(n) => Some(("set"@, n)),
        ByteCode::CollectList(n) => Some(("collect_list"@, n)),
        _ => None,
    }
}

/// The text of an integer: a minus sign for a negative one, then its digits.
pub open spec fn int_text(i: i64) -> Seq<char> {
    if i < 0 {
        seq!['-'] + decimal((-(i as int)) as nat)
    } else {
        decimal(i as nat)
    }
}

/// The word character with code point `c`, if there is one.
pub open spec fn word_char_of(c: u32) -> Option<char> {
    if exists|ch: char| ch as u32 == c && is_word_char(ch) {
        Some(choose|ch: char| ch as u32 == c && is_word_char(ch))
    } else {
        None
    }
}

/// The line that shows an instruction, for the instructions whose line reads
/// back as the instruction itself: those without operand, those with an index
/// operand, `Copy`, and pushes of integers and of word characters.
pub open spec fn line_text(b: ByteCode) -> Option<Seq<char>> {
    match bare_text(b) {
        Some(t) => Some(t),
        None => match indexed_text(b) {
            Some((m, n)) => Some(m + seq![' '] + decimal(n as nat)),
            None => match b {
                ByteCode::Copy(n) => Some("copy -"@ + decimal(n as nat)),
                ByteCode::Push(Value::Int(i)) => Some("push "@ + int_text(i)),
                ByteCode::Push(Value::Char(c)) => match word_char_of(c) {
                    Some(ch) => Some("push '"@ + seq![ch, '\'']),
                    None => None,
                },
                _ => None,
            },
        },
    }
}

proof fn lemma_first_space_after(m: Seq<char>, rest: Seq<char>, j: int)
    requires
        0 <= j <= m.len(),
        forall|k: int| 0 <= k < m.len() ==> #[trigger] m[k] != ' ',
    ensures
        first_space(m + seq![' '] + rest, j) == m.len(),
    decreases m.len() - j,
{
    let t = m + seq![' '] + rest;
    if j < m.len() {
        assert(t[j] == m[j]);
        lemma_first_space_after(m, rest, j + 1);
    } else {
        assert(t[j] == ' ');
    }
}

/// Assembling the line that shows a label-free instruction gives back that
/// instruction, wherever the line stands and whatever labels and decimal
/// literals are known.
pub proof fn lemma_line_round_trip(
    b: ByteCode,
    i: usize,
    ls: Seq<(Seq<char>, usize)>,
    fv: Seq<(Seq<char>, u64)>,
)
    requires
        line_text(b) is Some,
    ensures
        line_ok(line_text(b)->Some_0, i, ls, fv, Ok(b)),
        forall|r: Result<ByteCode, AsmError>| #[trigger] line_ok(line_text(b)->Some_0, i, ls, fv, r)
            ==> r == Ok::<ByteCode, AsmError>(b),
{
        reveal_strlit("HALT");
        reveal_strlit("pop");
        reveal_strlit("dup");
        reveal_strlit("swap");
        reveal_strlit("ret");
        reveal_strlit(">");
        reveal_strlit("<");
        reveal_strlit(">=");
        reveal_strlit("<=");
        reveal_strlit("==");
        reveal_strlit("!=");
        reveal_strlit("===");
        reveal_strlit("!==");
        reveal_strlit("+");
        reveal_strlit("-");
        reveal_strlit("*");
        reveal_strlit("/");
        reveal_strlit("%");
        reveal_strlit("++");
        reveal_strlit("--");
        reveal_strlit("&");
        reveal_strlit("|");
        reveal_strlit("!");
        reveal_strlit("^");
        reveal_strlit("jmp");
        reveal_strlit("pop_jmp_if");
        reveal_strlit("pop_jmp_if_not");
        reveal_strlit("call");
        reveal_strlit("get");
        reveal_strlit("set");
        reveal_strlit("collect_list");
        reveal_strlit("push ");
        reveal_strlit("copy -");
    if bare_text(b) is None && indexed_text(b) is None {
        match b {
            ByteCode::Copy(n) => {
                let d = decimal(n as nat);
                lemma_decimal(n as nat);
                let t = "copy -"@ + d;
                assert(t.len() >= 7);
                assert(t.subrange(0, 6) =~= "copy -"@);
                assert(t.subrange(6, t.len() as int) =~= d);
                assert(!prefix_is(t, "push "@)) by {
                    assert(t.subrange(0, 5)[0] == t[0]);
                }
                assert(mnemonic(t) is None);
            },
            ByteCode::Push(Value::Char(c)) => {
                let ch = word_char_of(c)->Some_0;
                let a = seq!['\'', ch, '\''];
                let t = "push '"@ + seq![ch, '\''];
                reveal_strlit("push '");
                assert(t.subrange(0, 5) =~= "push "@);
                assert(t.subrange(5, t.len() as int) =~= a);
                assert(!is_digit(a[0]));
                assert(!is_float_text(a)) by {
                    if is_float_text(a) {
                        let p = choose|p: int|
                            0 < p < a.len() - 1 && a[p] == '.' && all_digits(a.subrange(0, p))
                                && all_digits(#[trigger] a.subrange(p + 1, a.len() as int));
                        assert(a.subrange(0, p)[0] == a[0]);
                    }
                }
                assert(!is_int_text(a)) by {
                    assert(!all_digits(a)) by {
                        assert(!is_digit(a[0]));
                    }
                }
                assert(t.len() >= 6);
                assert(mnemonic(t) is None);
            },
            ByteCode::Push(Value::Int(i)) => {
                let a = int_text(i);
                let t = "push "@ + a;
                assert(t.subrange(0, 5) =~= "push "@);
                assert(t.subrange(5, t.len() as int) =~= a);
                if i < 0 {
                    let m = (-(i as int)) as nat;
                    lemma_decimal(m);
                    assert(a.drop_first() =~= decimal(m));
                    assert(int_text_value(a) == i);
                } else {
                    lemma_decimal(i as nat);
                    assert(is_digit(a[0]));
                    assert(int_text_value(a) == i);
                }
                assert(t.len() >= 6);
                assert(mnemonic(t) is None);
            },
            _ => {},
        }
    }
    match indexed_text(b) {
        Some((m, n)) => {
            let d = decimal(n as nat);
            lemma_decimal(n as nat);
            let t = m + seq![' '] + d;
            assert(forall|k: int| 0 <= k < m.len() ==> #[trigger] m[k] != ' ');
            lemma_first_space_after(m, d, 0);
            assert(t.subrange(0, m.len() as int) =~= m);
            assert(t.subrange(m.len() as int + 1, t.len() as int) =~= d);
            assert(m.len() >= 3);
            assert(t[0] == m[0]);
            assert(t[1] == m[1]);
            assert(t[2] == m[2]);
            assert(t.len() > m.len());
            assert(!prefix_is(t, "push "@)) by {
                if t.len() >= 5 {
                    assert(t.subrange(0, 5)[0] == t[0]);
                    assert(t.subrange(0, 5)[1] == t[1]);
                }
            }
            assert(!prefix_is(t, "copy -"@)) by {
                if t.len() >= 6 {
                    assert(t.subrange(0, 6)[0] == t[0]);
                    assert(t.subrange(0, 6)[1] == t[1]);
                    assert(t.subrange(0, 6)[2] == t[2]);
                }
            }
            assert(mnemonic(t) is None) by {
                assert(t[m.len() as int] == ' ');
            }
        },
        None => {},
    }
}

/// The lines joined by line feeds.
pub open spec fn join_lines(ls: Seq<Seq<char>>) -> Seq<char>
    decreases ls.len(),
{
    if ls.len() == 0 {
        Seq::empty()
    } else if ls.len() == 1 {
        ls[0]
    } else {
        ls[0] + seq!['\n'] + join_lines(ls.drop_first())
    }
}

/// The text of a program whose instructions all have a line.
pub open spec fn program_text(bs: Seq<ByteCode>) -> Seq<char> {
    join_lines(bs.map_values(|b: ByteCode| line_text(b)->Some_0))
}

/// A line that stands for itself: it starts with no whitespace, and holds no line
/// break, no `;` and no `<` but at its start.
pub open spec fn line_plain(l: Seq<char>) -> bool {
    &&& l.len() > 0
    &&& !is_ws(l[0])
    &&& forall|j: int|
        0 <= j < l.len() ==> #[trigger] l[j] != '\n' && l[j] != '\r' && l[j] != ';' && (j >= 1
            ==> l[j] != '<')
}

proof fn lemma_plain_line_end(l: Seq<char>, rest: Seq<char>, j: int)
    requires
        0 <= j <= l.len(),
        forall|k: int| 0 <= k < l.len() ==> #[trigger] l[k] != '\n',
    ensures
        line_end(l + seq!['\n'] + rest, j) == l.len(),
        line_end(l, j) == l.len(),
    decreases l.len() - j,
{
    if j < l.len() {
        assert((l + seq!['\n'] + rest)[j] == l[j]);
        lemma_plain_line_end(l, rest, j + 1);
    } else {
        assert((l + seq!['\n'] + rest)[j] == '\n');
    }
}

proof fn lemma_split_join(ls: Seq<Seq<char>>)
    requires
        ls.len() >= 1,
        forall|k: int| 0 <= k < ls.len() ==> #[trigger] line_plain(ls[k]),
    ensures
        split_lines(join_lines(ls)) == ls,
    decreases ls.len(),
{
    let l = ls[0];
    assert(line_plain(l));
    assert(l[l.len() - 1] != '\r');
    if ls.len() == 1 {
        lemma_plain_line_end(l, Seq::empty(), 0);
        assert(drop_cr(l) == l);
        assert(split_lines(l) =~= seq![l]);
        assert(ls =~= seq![l]);
    } else {
        let rest = ls.drop_first();
        assert forall|k: int| 0 <= k < rest.len() implies #[trigger] line_plain(rest[k]) by {
            assert(rest[k] == ls[k + 1]);
        }
        lemma_split_join(rest);
        let t = l + seq!['\n'] + join_lines(rest);
        lemma_plain_line_end(l, join_lines(rest), 0);
        assert(t.subrange(0, l.len() as int) =~= l);
        assert(t.subrange(l.len() as int + 1, t.len() as int) =~= join_lines(rest));
        assert(drop_cr(l) == l);
        assert(split_lines(t) =~= seq![l] + rest);
        assert(ls =~= seq![l] + rest);
    }
}

proof fn lemma_plain_no_comment(l: Seq<char>, from: int)
    requires
        line_plain(l),
        0 <= from,
    ensures
        first_comment(l, from) is None,
    decreases l.len() - from,
{
    if from + 2 < l.len() {
        assert(l[from] != ';');
        lemma_plain_no_comment(l, from + 1);
    }
}

proof fn lemma_plain_no_arrow(l: Seq<char>, from: int)
    requires
        line_plain(l),
        1 <= from,
    ensures
        first_arrow(l, from) is None,
    decreases l.len() - from,
{
    if from + 3 < l.len() {
        assert(l[from] != '<');
        lemma_plain_no_arrow(l, from + 1);
    }
}

proof fn lemma_preprocess_plain(ls: Seq<Seq<char>>)
    requires
        forall|k: int| 0 <= k < ls.len() ==> #[trigger] line_plain(ls[k]),
    ensures
        preprocess(ls) == (ls, Seq::<(Seq<char>, usize)>::empty()),
    decreases ls.len(),
{
    if ls.len() > 0 {
        let init = ls.drop_last();
        assert forall|k: int| 0 <= k < init.len() implies #[trigger] line_plain(init[k]) by {
            assert(init[k] == ls[k]);
        }
        lemma_preprocess_plain(init);
        let l = ls.last();
        assert(line_plain(ls[ls.len() - 1]));
        lemma_plain_no_comment(l, 0);
        lemma_plain_no_arrow(l, 1);
        assert(!is_blank(l)) by {
            assert(!is_ws(l[0]));
        }
        assert(init.push(l) =~= ls);
    }
}

proof fn lemma_decimal_plain(n: nat)
    ensures
        forall|k: int| 0 <= k < decimal(n).len() ==> is_digit(#[trigger] decimal(n)[k]),
        decimal(n).len() > 0,
{
    lemma_decimal(n);
}

/// Each line that shows an instruction stands for itself.
proof fn lemma_line_text_plain(b: ByteCode)
    requires
        line_text(b) is Some,
    ensures
        line_plain(line_text(b)->Some_0),
{
    reveal_strlit("HALT");
    reveal_strlit("pop");
    reveal_strlit("dup");
    reveal_strlit("swap");
    reveal_strlit("ret");
    reveal_strlit(">");
    reveal_strlit("<");
    reveal_strlit(">=");
    reveal_strlit("<=");
    reveal_strlit("==");
    reveal_strlit("!=");
    reveal_strlit("===");
    reveal_strlit("!==");
    reveal_strlit("+");
    reveal_strlit("-");
    reveal_strlit("*");
    reveal_strlit("/");
    reveal_strlit("%");
    reveal_strlit("++");
    reveal_strlit("--");
    reveal_strlit("&");
    reveal_strlit("|");
    reveal_strlit("!");
    reveal_strlit("^");
    reveal_strlit("jmp");
    reveal_strlit("pop_jmp_if");
    reveal_strlit("pop_jmp_if_not");
    reveal_strlit("call");
    reveal_strlit("get");
    reveal_strlit("set");
    reveal_strlit("collect_list");
    reveal_strlit("push ");
    reveal_strlit("copy -");
    let l = line_text(b)->Some_0;
    if bare_text(b) is None {
        match indexed_text(b) {
            Some((m, n)) => {
                lemma_decimal_plain(n as nat);
                let d = decimal(n as nat);
                assert forall|j: int| 0 <= j < l.len() implies #[trigger] l[j] != '\n' && l[j] != '\r'
                    && l[j] != ';' && (j >= 1 ==> l[j] != '<') by {
                    if j < m.len() {
                        assert(l[j] == m[j]);
                    } else if j > m.len() {
                        assert(l[j] == d[j - m.len() - 1]);
                    }
                }
            },
            None => match b {
                ByteCode::Copy(n) => {
                    lemma_decimal_plain(n as nat);
                    let d = decimal(n as nat);
                    assert forall|j: int| 0 <= j < l.len() implies #[trigger] l[j] != '\n' && l[j] != '\r'
                        && l[j] != ';' && (j >= 1 ==> l[j] != '<') by {
                        if j >= 6 {
                            assert(l[j] == d[j - 6]);
                        }
                    }
                },
                ByteCode::Push(Value::Char(c)) => {
                    reveal_strlit("push '");
                    let ch = word_char_of(c)->Some_0;
                    assert(is_word_char(ch));
                    assert forall|j: int| 0 <= j < l.len() implies #[trigger] l[j] != '\n' && l[j] != '\r'
                        && l[j] != ';' && (j >= 1 ==> l[j] != '<') by {
                        if j == 6 {
                            assert(l[j] == ch);
                        }
                    }
                },
                ByteCode::Push(Value::Int(i)) => {
                    let a = int_text(i);
                    let d = if i < 0 {
                        decimal((-(i as int)) as nat)
                    } else {
                        decimal(i as nat)
                    };
                    lemma_decimal_plain(if i < 0 {
                        (-(i as int)) as nat
                    } else {
                        i as nat
                    });
                    assert forall|j: int| 0 <= j < l.len() implies #[trigger] l[j] != '\n' && l[j] != '\r'
                        && l[j] != ';' && (j >= 1 ==> l[j] != '<') by {
                        if j >= 5 {
                            assert(l[j] == a[j - 5]);
                            if i < 0 {
                                if j > 5 {
                                    assert(a[j - 5] == d[j - 6]);
                                }
                            } else {
                                assert(a[j - 5] == d[j - 5]);
                            }
                        }
                    }
                },
                _ => {},
            },
        }
    }
}

/// Assembling the text of a program whose instructions all have a line, one per
/// line, gives back the same instructions: whatever `compile_to_enum` returns is
/// determined by these lines, and for each line it is its own instruction.
pub proof fn lemma_program_round_trip(bs: Seq<ByteCode>, fv: Seq<(Seq<char>, u64)>)
    requires
        bs.len() >= 1,
        forall|k: int| 0 <= k < bs.len() ==> #[trigger] line_text(bs[k]) is Some,
    ensures
        ({
            let (ps, ls) = preprocess(split_lines(program_text(bs)));
            &&& ps.len() == bs.len()
            &&& forall|i: int, r: Result<ByteCode, AsmError>|
                0 <= i < ps.len() ==> (#[trigger] line_ok(ps[i], i as usize, ls, fv, r) <==> r
                    == Ok::<ByteCode, AsmError>(bs[i]))
        }),
{
    let lines = bs.map_values(|b: ByteCode| line_text(b)->Some_0);
    assert forall|k: int| 0 <= k < lines.len() implies #[trigger] line_plain(lines[k]) by {
        lemma_line_text_plain(bs[k]);
    }
    lemma_split_join(lines);
    lemma_preprocess_plain(lines);
    let (ps, ls) = preprocess(split_lines(program_text(bs)));
    assert(ps == lines);
    assert forall|i: int, r: Result<ByteCode, AsmError>|
        0 <= i < ps.len() implies (#[trigger] line_ok(ps[i], i as usize, ls, fv, r) <==> r
            == Ok::<ByteCode, AsmError>(bs[i])) by {
        lemma_line_round_trip(bs[i], i as usize, ls, fv);
    }
}

/// No mnemonic has five characters or more.
proof fn lemma_long_line_no_mnemonic(t: Seq<char>)
    requires
        t.len() >= 5,
    ensures
        mnemonic(t) is None,
{
    reveal_strlit("HALT");
    reveal_strlit("pop");
    reveal_strlit("dup");
    reveal_strlit("swap");
    reveal_strlit("ret");
    reveal_strlit(">");
    reveal_strlit("<");
    reveal_strlit(">=");
    reveal_strlit("<=");
    reveal_strlit("==");
    reveal_strlit("!=");
    reveal_strlit("===");
    reveal_strlit("!==");
    reveal_strlit("+");
    reveal_strlit("-");
    reveal_strlit("*");
    reveal_strlit("/");
    reveal_strlit("%");
    reveal_strlit("++");
    reveal_strlit("--");
    reveal_strlit("&");
    reveal_strlit("|");
    reveal_strlit("!");
    reveal_strlit("^");
}

/// A line that pushes a string literal reads back as a push of a string object
/// with that text.
pub proof fn lemma_string_line_round_trip(
    text: Seq<char>,
    i: usize,
    ls: Seq<(Seq<char>, usize)>,
    fv: Seq<(Seq<char>, u64)>,
)
    requires
        text.len() >= 1,
    ensures
        forall|r: Result<ByteCode, AsmError>| #[trigger] line_ok(
            "push "@ + (seq!['"'] + text + seq!['"']),
            i,
            ls,
            fv,
            r,
        ) <==> {
            &&& r is Ok
            &&& r->Ok_0 is Push
            &&& r->Ok_0->Push_0 is Ref
            &&& *(r->Ok_0->Push_0->Ref_0) is Str
            &&& (*(r->Ok_0->Push_0->Ref_0))->Str_0@ == text
        },
{
    reveal_strlit("push ");
    let a = seq!['"'] + text + seq!['"'];
    let t = "push "@ + a;
    assert(t.subrange(0, 5) =~= "push "@);
    assert(t.subrange(5, t.len() as int) =~= a);
    assert(a[0] == '"');
    assert(a.last() == '"');
    assert(a.subrange(1, a.len() - 1) =~= text);
    assert(!is_digit(a[0]));
    assert(!is_float_text(a)) by {
        if is_float_text(a) {
            let p = choose|p: int|
                0 < p < a.len() - 1 && a[p] == '.' && all_digits(a.subrange(0, p)) && all_digits(
                    #[trigger] a.subrange(p + 1, a.len() as int),
                );
            assert(a.subrange(0, p)[0] == a[0]);
        }
    }
    assert(!all_digits(a)) by {
        assert(!is_digit(a[0]));
    }
    assert(t.len() >= 8);
    lemma_long_line_no_mnemonic(t);
}

/// A line that pushes a decimal literal whose value the table gives reads back as
/// a push of that value.
pub proof fn lemma_float_line_round_trip(
    text: Seq<char>,
    bits: u64,
    i: usize,
    ls: Seq<(Seq<char>, usize)>,
    fv: Seq<(Seq<char>, u64)>,
)
    requires
        is_float_text(text),
        find_bits(fv, text) == Some(bits),
    ensures
        forall|r: Result<ByteCode, AsmError>| #[trigger] line_ok("push "@ + text, i, ls, fv, r) <==> r
            == Ok::<ByteCode, AsmError>(ByteCode::Push(Value::Float(bits))),
{
    reveal_strlit("push ");
    let t = "push "@ + text;
    assert(t.subrange(0, 5) =~= "push "@);
    assert(t.subrange(5, t.len() as int) =~= text);
    let p = choose|p: int|
        0 < p < text.len() - 1 && text[p] == '.' && all_digits(text.subrange(0, p)) && all_digits(
            #[trigger] text.subrange(p + 1, text.len() as int),
        );
    assert(is_digit(text.subrange(0, p)[0]));
    assert(text[0] != '-');
    assert(!all_digits(text)) by {
        assert(!is_digit(text[p]));
    }
    assert(t.len() >= 8);
    lemma_long_line_no_mnemonic(t);
}

} // verus!
