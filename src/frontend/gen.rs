//! Lowers an expression tree to instructions.
//!
//! A stack of scopes maps names to slots, innermost last; a lookup takes the
//! innermost binding. Slots come from one counter that only grows. A lambda's body
//! is first rewritten so that each free occurrence of its parameters becomes a
//! positional parameter, and is then lowered in a scope of its own into a
//! function object. An inner lambda may rebind an outer parameter's name.
use crate::frontend::parser::Parsed;
use crate::frontend::token::Token;
use crate::vm::bytecode::ByteCode;
use crate::vm::object::ObjType;
use crate::vm::value::Value;
use std::rc::Rc;
use vstd::prelude::*;

verus! {

#[derive(Clone, Copy, Debug, PartialEq, Eq, Structural)]
pub enum CodeGenError {
    /// A form with other than two arguments: expected, found.
    WrongNumberOfArgument(u8, u8),
    ArgTypeError,
    SymbolNotFound,
    NotValidLambda,
    /// A form whose head is no operator or keyword that has a lowering.
    UnknownForm,
    /// A decimal literal whose binary64 value was not given with `resolve_float`.
    UnknownFloat,
    /// The slot counter is exhausted.
    OutOfSlots,
}

#[derive(Debug)]
pub struct GenEnv {
    /// The scopes, innermost last: each maps names to slots.
    pub sym: Vec<Vec<(String, usize)>>,
    /// The next slot to allocate.
    pub pool_index: usize,
    /// Decimal literals with the bit patterns of their binary64 values.
    pub floats: Vec<(String, u64)>,
}

/// Scopes as the model sees them: names are character sequences.
pub type Scopes = Seq<Seq<(Seq<char>, usize)>>;

/// The scopes and the slot counter.
pub type EnvView = (Scopes, int);

pub open spec fn scope_view(sc: Vec<(String, usize)>) -> Seq<(Seq<char>, usize)> {
    sc@.map_values(|p: (String, usize)| (p.0@, p.1))
}

/// Names are distinct within each scope, each slot is below `pool`, and no two
/// bindings share a slot.
pub open spec fn scopes_ok(scs: Scopes, pool: int) -> bool {
    &&& forall|i: int, a: int, b: int|
        0 <= i < scs.len() && 0 <= a < b < scs[i].len() ==> #[trigger] scs[i][a].0 != #[trigger] scs[i][b].0
    &&& forall|i: int, a: int| 0 <= i < scs.len() && 0 <= a < scs[i].len() ==> #[trigger] scs[i][a].1 < pool
    &&& forall|i: int, a: int, j: int, b: int|
        0 <= i < scs.len() && 0 <= a < scs[i].len() && 0 <= j < scs.len() && 0 <= b < scs[j].len()
            && (i != j || a != b) ==> #[trigger] scs[i][a].1 != #[trigger] scs[j][b].1
}

proof fn lemma_find_none(sc: Seq<(Seq<char>, usize)>, name: Seq<char>)
    requires
        find_in_scope(sc, name) is None,
    ensures
        forall|a: int| 0 <= a < sc.len() ==> #[trigger] sc[a].0 != name,
    decreases sc.len(),
{
    if sc.len() > 0 {
        lemma_find_none(sc.drop_last(), name);
        assert forall|a: int| 0 <= a < sc.len() implies #[trigger] sc[a].0 != name by {
            if a < sc.len() - 1 {
                assert(sc.drop_last()[a] == sc[a]);
            }
        }
    }
}

/// The slot bound to `name` in one scope.
pub open spec fn find_in_scope(sc: Seq<(Seq<char>, usize)>, name: Seq<char>) -> Option<usize>
    decreases sc.len(),
{
    if sc.len() == 0 {
        None
    } else if sc.last().0 == name {
        Some(sc.last().1)
    } else {
        find_in_scope(sc.drop_last(), name)
    }
}

/// The slot bound to `name` in the innermost scope that binds it.
pub open spec fn lookup(scs: Scopes, name: Seq<char>) -> Option<usize>
    decreases scs.len(),
{
    if scs.len() == 0 {
        None
    } else {
        match find_in_scope(scs.last(), name) {
            Some(i) => Some(i),
            None => lookup(scs.drop_last(), name),
        }
    }
}

pub open spec fn find_float(fv: Seq<(Seq<char>, u64)>, text: Seq<char>) -> Option<u64>
    decreases fv.len(),
{
    if fv.len() == 0 {
        None
    } else if fv.last().0 == text {
        Some(fv.last().1)
    } else {
        find_float(fv.drop_last(), text)
    }
}

pub open spec fn tree_size(t: Parsed) -> nat
    decreases t, 0int,
{
    match t {
        Parsed::Token(_) => 1,
        Parsed::List(v) => 1 + forest_size(v@),
    }
}

pub open spec fn forest_size(cs: Seq<Parsed>) -> nat
    decreases cs, 1int,
{
    if cs.len() == 0 {
        0
    } else {
        forest_size(cs.drop_last()) + tree_size(cs.last())
    }
}

/// A tree of a forest is no larger than the forest.
pub proof fn lemma_forest_member(cs: Seq<Parsed>, k: int)
    requires
        0 <= k < cs.len(),
    ensures
        tree_size(cs[k]) <= forest_size(cs),
    decreases cs.len(),
{
    if k < cs.len() - 1 {
        lemma_forest_member(cs.drop_last(), k);
        assert(cs.drop_last()[k] == cs[k]);
    }
}

/// The position of the last parameter called `name`.
pub open spec fn param_index(ps: Seq<Seq<char>>, name: Seq<char>) -> Option<usize>
    decreases ps.len(),
{
    if ps.len() == 0 {
        None
    } else if ps.last() == name {
        Some((ps.len() - 1) as usize)
    } else {
        param_index(ps.drop_last(), name)
    }
}

/// The names that a lambda's parameter list binds: its plain identifiers.
pub open spec fn binders(xs: Seq<Parsed>) -> Seq<Seq<char>>
    decreases xs.len(),
{
    if xs.len() == 0 {
        Seq::empty()
    } else {
        let rest = binders(xs.drop_last());
        match xs.last() {
            Parsed::Token(Token::Sym(s)) => rest.push(s@),
            _ => rest,
        }
    }
}

/// For a form `(lambda (ps...) ...)`, the names that its parameters bind.
pub open spec fn lambda_binders(v: Seq<Parsed>) -> Option<Seq<Seq<char>>> {
    if v.len() >= 2 && v[0] == Parsed::Token(Token::Lambda) && v[1] is List {
        Some(binders(v[1]->List_0@))
    } else {
        None
    }
}

/// A free symbol that names a parameter becomes that parameter's positional
/// marker; a symbol bound by an inner lambda (one of `hidden`) and every other
/// token stay as they are.
pub open spec fn token_renamed(t: Token, u: Token, ps: Seq<Seq<char>>, hidden: Seq<Seq<char>>) -> bool {
    match t {
        Token::Sym(s) => if hidden.contains(s@) {
            u == t
        } else {
            match param_index(ps, s@) {
                Some(k) => u == Token::Param(k),
                None => u == t,
            }
        },
        _ => u == t,
    }
}

/// `b` is `a` with each free occurrence of a parameter renamed, and with the same
/// shape. Inside a lambda form, the names that its parameters bind are hidden.
pub open spec fn renamed(a: Parsed, b: Parsed, ps: Seq<Seq<char>>, hidden: Seq<Seq<char>>) -> bool
    decreases a, 0int,
{
    match a {
        Parsed::Token(t) => b is Token && token_renamed(t, b->Token_0, ps, hidden),
        Parsed::List(v) => b is List && forest_renamed(
            v@,
            b->List_0@,
            ps,
            match lambda_binders(v@) {
                Some(bs) => hidden + bs,
                None => hidden,
            },
        ),
    }
}

pub open spec fn forest_renamed(
    xs: Seq<Parsed>,
    ys: Seq<Parsed>,
    ps: Seq<Seq<char>>,
    hidden: Seq<Seq<char>>,
) -> bool
    decreases xs, 1int,
{
    xs.len() == ys.len() && (xs.len() == 0 || (forest_renamed(
        xs.drop_last(),
        ys.drop_last(),
        ps,
        hidden,
    ) && renamed(xs.last(), ys.last(), ps, hidden)))
}

proof fn lemma_renamed_size(a: Parsed, b: Parsed, ps: Seq<Seq<char>>, hidden: Seq<Seq<char>>)
    requires
        renamed(a, b, ps, hidden),
    ensures
        tree_size(a) == tree_size(b),
    decreases a, 0int,
{
    match a {
        Parsed::List(v) => lemma_forest_renamed_size(
            v@,
            b->List_0@,
            ps,
            match lambda_binders(v@) {
                Some(bs) => hidden + bs,
                None => hidden,
            },
        ),
        Parsed::Token(_) => {},
    }
}

proof fn lemma_forest_renamed_size(
    xs: Seq<Parsed>,
    ys: Seq<Parsed>,
    ps: Seq<Seq<char>>,
    hidden: Seq<Seq<char>>,
)
    requires
        forest_renamed(xs, ys, ps, hidden),
    ensures
        forest_size(xs) == forest_size(ys),
    decreases xs, 1int,
{
    if xs.len() > 0 {
        lemma_forest_renamed_size(xs.drop_last(), ys.drop_last(), ps, hidden);
        lemma_renamed_size(xs.last(), ys.last(), ps, hidden);
    }
}

pub open spec fn names_of(params: Seq<String>) -> Seq<Seq<char>> {
    params.map_values(|s: String| s@)
}

pub open spec fn all_syms(ps: Seq<Parsed>) -> bool {
    forall|k: int| 0 <= k < ps.len() ==> #[trigger] ps[k] is Token && ps[k]->Token_0 is Sym
}

pub open spec fn sym_names(ps: Seq<Parsed>) -> Seq<Seq<char>> {
    ps.map_values(|p: Parsed| p->Token_0->Sym_0@)
}

/// A push of a string object with the text `text`.
pub open spec fn pushes_str(b: ByteCode, text: Seq<char>) -> bool {
    &&& b is Push
    &&& b->Push_0 is Ref
    &&& *(b->Push_0->Ref_0) is Str
    &&& (*(b->Push_0->Ref_0))->Str_0@ == text
}

/// A push of a function object with `n` parameters and the body `body`.
pub open spec fn pushes_func(b: ByteCode, n: int, body: Seq<ByteCode>) -> bool {
    &&& b is Push
    &&& b->Push_0 is Ref
    &&& *(b->Push_0->Ref_0) is Func
    &&& (*(b->Push_0->Ref_0))->Func_0 == n
    &&& (*(b->Push_0->Ref_0))->Func_1@ == body
}

/// The token as the lowering sees it inside lambdas: a symbol that names a
/// parameter of an enclosing lambda is that parameter's positional marker, the
/// innermost lambda first.
pub open spec fn seen(ctx: Seq<Seq<Seq<char>>>, tok: Token) -> Token
    decreases ctx.len(),
{
    match tok {
        Token::Sym(s) => if ctx.len() == 0 {
            tok
        } else {
            match param_index(ctx.last(), s@) {
                Some(k) => Token::Param(k),
                None => seen(ctx.drop_last(), tok),
            }
        },
        _ => tok,
    }
}

/// The error of lowering a leaf, if any.
pub open spec fn leaf_err(e: EnvView, tok: Token, fv: Seq<(Seq<char>, u64)>) -> Option<CodeGenError> {
    match tok {
        Token::Sym(s) => if lookup(e.0, s@) is Some {
            None
        } else {
            Some(CodeGenError::SymbolNotFound)
        },
        Token::Float(t) => if find_float(fv, t@) is Some {
            None
        } else {
            Some(CodeGenError::UnknownFloat)
        },
        Token::Param(_) | Token::Bool(_) | Token::Int(_) | Token::Char(_) | Token::Nil | Token::Str(
            _,
        ) => None,
        _ => Some(CodeGenError::UnknownForm),
    }
}

/// The code of a leaf: one instruction that reads a slot or a positional
/// parameter, or pushes the literal.
pub open spec fn leaf_code(e: EnvView, tok: Token, fv: Seq<(Seq<char>, u64)>, c: Seq<ByteCode>) -> bool {
    c.len() == 1 && match tok {
        Token::Sym(s) => lookup(e.0, s@) is Some && c[0] == ByteCode::Get(lookup(e.0, s@)->Some_0),
        Token::Param(k) => c[0] == ByteCode::Arg(k),
        Token::Bool(b) => c[0] == ByteCode::Push(Value::Bool(b)),
        Token::Int(i) => c[0] == ByteCode::Push(Value::Int(i)),
        Token::Char(x) => c[0] == ByteCode::Push(Value::Char(x)),
        Token::Nil => c[0] == ByteCode::Push(Value::Nil),
        Token::Float(t) => find_float(fv, t@) is Some && c[0] == ByteCode::Push(
            Value::Float(find_float(fv, t@)->Some_0),
        ),
        Token::Str(s) => pushes_str(c[0], s@),
        _ => false,
    }
}

/// The instruction of a binary operator.
pub open spec fn binary_op(tok: Token) -> Option<ByteCode> {
    match tok {
        Token::Add => Some(ByteCode::Add),
        Token::Sub => Some(ByteCode::Sub),
        Token::Mul => Some(ByteCode::Mul),
        Token::Div => Some(ByteCode::Div),
        Token::Rem => Some(ByteCode::Rem),
        Token::And => Some(ByteCode::And),
        Token::Or => Some(ByteCode::Or),
        Token::Xor => Some(ByteCode::Xor),
        _ => None,
    }
}

/// An operand is a literal of a kind that the operator takes, or a name.
pub open spec fn operand_ok(op: Token, t: Token) -> bool {
    if op is And || op is Or || op is Xor {
        t is Int || t is Bool || t is Char || t is Sym || t is Param
    } else {
        t is Int || t is Float || t is Char || t is Sym || t is Param
    }
}

/// Both operands are leaves that the operator takes.
pub open spec fn operands_ok(op: Token, ctx: Seq<Seq<Seq<char>>>, a: Parsed, b: Parsed) -> bool {
    a is Token && b is Token && operand_ok(op, seen(ctx, a->Token_0)) && operand_ok(
        op,
        seen(ctx, b->Token_0),
    )
}

/// The slot that `(def name ...)` stores into, after the value was lowered in `em`.
pub open spec fn define_slot(em: EnvView, name: Seq<char>) -> usize {
    match find_in_scope(em.0.last(), name) {
        Some(k) => k,
        None => em.1 as usize,
    }
}

/// The environment after binding `name`: a name bound in the innermost scope
/// keeps its slot; another is bound there to the next slot.
pub open spec fn define_env(em: EnvView, name: Seq<char>) -> EnvView {
    match find_in_scope(em.0.last(), name) {
        Some(_) => em,
        None => if em.1 < usize::MAX {
            (em.0.update(em.0.len() - 1, em.0.last().push((name, em.1 as usize))), em.1 + 1)
        } else {
            em
        },
    }
}

pub open spec fn arity_byte(len: int) -> u8 {
    if len <= 1 {
        0
    } else if len - 1 > 255 {
        255
    } else {
        (len - 1) as u8
    }
}

/// The environment after lowering `expr` from `e0`.
pub open spec fn gen_env(e0: EnvView, expr: Parsed, ctx: Seq<Seq<Seq<char>>>, fv: Seq<(Seq<char>, u64)>) -> EnvView
    decreases expr,
{
    match expr {
        Parsed::Token(_) => e0,
        Parsed::List(v) => if v@.len() != 3 {
            e0
        } else {
            match v@[0] {
                Parsed::Token(Token::Define) => match v@[1] {
                    Parsed::Token(tk) => match seen(ctx, tk) {
                        Token::Sym(name) => {
                            let em = gen_env(e0, v@[2], ctx, fv);
                            if gen_err(e0, v@[2], ctx, fv) is Some {
                                em
                            } else {
                                define_env(em, name@)
                            }
                        },
                        _ => e0,
                    },
                    _ => e0,
                },
                Parsed::Token(Token::Lambda) => match v@[1] {
                    Parsed::List(ps) => if all_syms(ps@) {
                        let eb = gen_env(
                            (e0.0.push(Seq::empty()), e0.1),
                            v@[2],
                            ctx.push(sym_names(ps@)),
                            fv,
                        );
                        (eb.0.drop_last(), eb.1)
                    } else {
                        e0
                    },
                    _ => e0,
                },
                _ => e0,
            }
        },
    }
}

/// The error of lowering `expr` from `e0`, if it fails.
pub open spec fn gen_err(e0: EnvView, expr: Parsed, ctx: Seq<Seq<Seq<char>>>, fv: Seq<(Seq<char>, u64)>) -> Option<CodeGenError>
    decreases expr,
{
    match expr {
        Parsed::Token(tok) => leaf_err(e0, seen(ctx, tok), fv),
        Parsed::List(v) => if v@.len() != 3 {
            Some(CodeGenError::WrongNumberOfArgument(2, arity_byte(v@.len() as int)))
        } else {
            match v@[0] {
                Parsed::Token(Token::Define) => match v@[1] {
                    Parsed::Token(tk) => match seen(ctx, tk) {
                        Token::Sym(name) => match gen_err(e0, v@[2], ctx, fv) {
                            Some(x) => Some(x),
                            None => {
                                let em = gen_env(e0, v@[2], ctx, fv);
                                if find_in_scope(em.0.last(), name@) is None && em.1 >= usize::MAX {
                                    Some(CodeGenError::OutOfSlots)
                                } else {
                                    None
                                }
                            },
                        },
                        _ => Some(CodeGenError::ArgTypeError),
                    },
                    _ => Some(CodeGenError::ArgTypeError),
                },
                Parsed::Token(Token::Lambda) => match v@[1] {
                    Parsed::List(ps) => if all_syms(ps@) {
                        gen_err((e0.0.push(Seq::empty()), e0.1), v@[2], ctx.push(sym_names(ps@)), fv)
                    } else {
                        Some(CodeGenError::NotValidLambda)
                    },
                    _ => Some(CodeGenError::NotValidLambda),
                },
                Parsed::Token(op) => if binary_op(op) is Some {
                    if operands_ok(op, ctx, v@[1], v@[2]) {
                        match leaf_err(e0, seen(ctx, v@[1]->Token_0), fv) {
                            Some(x) => Some(x),
                            None => leaf_err(e0, seen(ctx, v@[2]->Token_0), fv),
                        }
                    } else {
                        Some(CodeGenError::ArgTypeError)
                    }
                } else {
                    Some(CodeGenError::UnknownForm)
                },
                Parsed::List(_) => Some(CodeGenError::UnknownForm),
            }
        },
    }
}

/// Whether `c` is the code of `expr`, lowered from `e0` without error.
pub open spec fn gen_code(
    e0: EnvView,
    expr: Parsed,
    ctx: Seq<Seq<Seq<char>>>,
    fv: Seq<(Seq<char>, u64)>,
    c: Seq<ByteCode>,
) -> bool
    decreases expr,
{
    match expr {
        Parsed::Token(tok) => leaf_code(e0, seen(ctx, tok), fv, c),
        Parsed::List(v) => v@.len() == 3 && match v@[0] {
            Parsed::Token(Token::Define) => match v@[1] {
                Parsed::Token(tk) => match seen(ctx, tk) {
                    Token::Sym(name) => {
                        let em = gen_env(e0, v@[2], ctx, fv);
                        let k = define_slot(em, name@);
                        &&& c.len() >= 2
                        &&& gen_code(e0, v@[2], ctx, fv, c.subrange(0, c.len() - 2))
                        &&& c[c.len() - 2] == ByteCode::Store(k)
                        &&& c[c.len() - 1] == ByteCode::Get(k)
                    },
                    _ => false,
                },
                _ => false,
            },
            Parsed::Token(Token::Lambda) => match v@[1] {
                Parsed::List(ps) => {
                    &&& all_syms(ps@)
                    &&& c.len() == 1
                    &&& c[0] is Push
                    &&& c[0]->Push_0 is Ref
                    &&& *(c[0]->Push_0->Ref_0) is Func
                    &&& (*(c[0]->Push_0->Ref_0))->Func_0 == ps@.len()
                    &&& gen_code(
                        (e0.0.push(Seq::empty()), e0.1),
                        v@[2],
                        ctx.push(sym_names(ps@)),
                        fv,
                        (*(c[0]->Push_0->Ref_0))->Func_1@,
                    )
                },
                _ => false,
            },
            Parsed::Token(op) => match binary_op(op) {
                Some(b) => {
                    &&& v@[1] is Token
                    &&& v@[2] is Token
                    &&& c.len() == 3
                    &&& leaf_code(e0, seen(ctx, v@[1]->Token_0), fv, seq![c[0]])
                    &&& leaf_code(e0, seen(ctx, v@[2]->Token_0), fv, seq![c[1]])
                    &&& c[2] == b
                },
                None => false,
            },
            Parsed::List(_) => false,
        },
    }
}

/// Lowering `expr` from `e0` ends in `e1` with the result `r`.
pub open spec fn gen_ok(
    e0: EnvView,
    expr: Parsed,
    ctx: Seq<Seq<Seq<char>>>,
    fv: Seq<(Seq<char>, u64)>,
    e1: EnvView,
    r: Result<Seq<ByteCode>, CodeGenError>,
) -> bool {
    &&& e1 == gen_env(e0, expr, ctx, fv)
    &&& match r {
        Ok(c) => gen_err(e0, expr, ctx, fv) is None && gen_code(e0, expr, ctx, fv, c),
        Err(x) => gen_err(e0, expr, ctx, fv) == Some(x),
    }
}

pub open spec fn vres(r: Result<Vec<ByteCode>, CodeGenError>) -> Result<Seq<ByteCode>, CodeGenError> {
    match r {
        Ok(v) => Ok(v@),
        Err(e) => Err(e),
    }
}

/// The texts of the decimal literals of a tree, in order.
pub open spec fn floats_in(t: Parsed) -> Seq<Seq<char>>
    decreases t, 0int,
{
    match t {
        Parsed::Token(Token::Float(s)) => seq![s@],
        Parsed::Token(_) => Seq::empty(),
        Parsed::List(v) => forest_floats(v@),
    }
}

pub open spec fn forest_floats(cs: Seq<Parsed>) -> Seq<Seq<char>>
    decreases cs, 1int,
{
    if cs.len() == 0 {
        Seq::empty()
    } else {
        forest_floats(cs.drop_last()) + floats_in(cs.last())
    }
}

fn copy_token(t: &Token) -> (r: Token)
    ensures
        r == *t,
{
    match t {
        Token::Add => Token::Add,
        Token::Sub => Token::Sub,
        Token::Mul => Token::Mul,
        Token::Div => Token::Div,
        Token::Rem => Token::Rem,
        Token::Inc => Token::Inc,
        Token::Dec => Token::Dec,
        Token::And => Token::And,
        Token::Or => Token::Or,
        Token::Not => Token::Not,
        Token::Xor => Token::Xor,
        Token::Greater => Token::Greater,
        Token::GreaterEq => Token::GreaterEq,
        Token::Less => Token::Less,
        Token::LessEq => Token::LessEq,
        Token::Eq => Token::Eq,
        Token::Neq => Token::Neq,
        Token::StrictEq => Token::StrictEq,
        Token::StrictNeq => Token::StrictNeq,
        Token::Define => Token::Define,
        Token::Assign => Token::Assign,
        Token::Cond => Token::Cond,
        Token::Match => Token::Match,
        Token::List => Token::List,
        Token::Car => Token::Car,
        Token::Cdr => Token::Cdr,
        Token::Lambda => Token::Lambda,
        Token::Require => Token::Require,
        Token::Provide => Token::Provide,
        Token::Nil => Token::Nil,
        Token::Bool(b) => Token::Bool(*b),
        Token::Int(i) => Token::Int(*i),
        Token::Float(t) => Token::Float(t.clone()),
        Token::Char(c) => Token::Char(*c),
        Token::Str(t) => Token::Str(t.clone()),
        Token::Sym(t) => Token::Sym(t.clone()),
        Token::Param(k) => Token::Param(*k),
    }
}

fn contains_name(v: &Vec<String>, s: &String) -> (r: bool)
    ensures
        r == names_of(v@).contains(s@),
{
    let ghost ns = names_of(v@);
    let mut i: usize = 0;
    while i < v.len()
        invariant
            i <= v@.len(),
            ns == names_of(v@),
            forall|k: int| 0 <= k < i ==> ns[k] != s@,
        decreases v@.len() - i,
    {
        if v[i].eq(s) {
            assert(ns[i as int] == s@);
            return true;
        }
        i = i + 1;
    }
    false
}

fn rename_token(t: &Token, params: &Vec<String>, hidden: &Vec<String>) -> (r: Token)
    ensures
        token_renamed(*t, r, names_of(params@), names_of(hidden@)),
{
    match t {
        Token::Sym(s) => {
            if contains_name(hidden, s) {
                return copy_token(t);
            }
            let ghost ns = names_of(params@);
            let mut k = params.len();
            assert(ns.subrange(0, k as int) =~= ns);
            while k > 0
                invariant
                    *t == Token::Sym(*s),
                    !names_of(hidden@).contains(s@),
                    k <= params@.len(),
                    ns == names_of(params@),
                    param_index(ns, s@) == param_index(ns.subrange(0, k as int), s@),
                decreases k,
            {
                assert(ns.subrange(0, k as int).drop_last() =~= ns.subrange(0, k - 1));
                assert(ns.subrange(0, k as int).last() == params@[k - 1]@);
                if params[k - 1].eq(s) {
                    assert(param_index(ns.subrange(0, k as int), s@) == Some((k - 1) as usize));
                    return Token::Param(k - 1);
                }
                k = k - 1;
            }
            copy_token(t)
        },
        _ => copy_token(t),
    }
}

/// `hidden` followed by the names that `list`'s lambda parameters bind, if
/// `list` is a lambda form.
fn hidden_inside(list: &Vec<Parsed>, hidden: &Vec<String>) -> (r: Vec<String>)
    ensures
        names_of(r@) == match lambda_binders(list@) {
            Some(bs) => names_of(hidden@) + bs,
            None => names_of(hidden@),
        },
{
    let mut out: Vec<String> = Vec::new();
    let mut i: usize = 0;
    while i < hidden.len()
        invariant
            i <= hidden@.len(),
            names_of(out@) == names_of(hidden@).subrange(0, i as int),
        decreases hidden@.len() - i,
    {
        let ghost before = out@;
        out.push(hidden[i].clone());
        i = i + 1;
        assert(names_of(out@) =~= names_of(hidden@).subrange(0, i as int)) by {
            assert(names_of(out@) =~= names_of(before).push(hidden@[i - 1]@));
        }
    }
    assert(names_of(hidden@).subrange(0, hidden@.len() as int) =~= names_of(hidden@));
    if list.len() < 2 {
        return out;
    }
    match (&list[0], &list[1]) {
        (Parsed::Token(Token::Lambda), Parsed::List(ps)) => {
            assert(list@[0] == Parsed::Token(Token::Lambda));
            let ghost base = names_of(out@);
            let mut k: usize = 0;
            assert(binders(ps@.subrange(0, 0)) =~= Seq::<Seq<char>>::empty());
            assert(base + Seq::<Seq<char>>::empty() =~= base);
            while k < ps.len()
                invariant
                    k <= ps@.len(),
                    names_of(out@) == base + binders(ps@.subrange(0, k as int)),
                decreases ps@.len() - k,
            {
                let ghost before = out@;
                assert(ps@.subrange(0, k + 1).drop_last() =~= ps@.subrange(0, k as int));
                assert(ps@.subrange(0, k + 1).last() == ps@[k as int]);
                match &ps[k] {
                    Parsed::Token(Token::Sym(x)) => {
                        out.push(x.clone());
                        assert(names_of(out@) =~= names_of(before).push(x@));
                    },
                    _ => {},
                }
                k = k + 1;
            }
            assert(ps@.subrange(0, ps@.len() as int) =~= ps@);
            out
        },
        _ => {
            proof {
                if lambda_binders(list@) is Some {
                    assert(list@[0] is Token && list@[0]->Token_0 is Lambda);
                }
            }
            out
        },
    }
}

fn rename_under(expr: &Parsed, params: &Vec<String>, hidden: &Vec<String>) -> (r: Parsed)
    ensures
        renamed(*expr, r, names_of(params@), names_of(hidden@)),
    decreases tree_size(*expr),
{
    match expr {
        Parsed::List(list) => {
            let inner = hidden_inside(list, hidden);
            let mut acc: Vec<Parsed> = Vec::new();
            let mut i: usize = 0;
            assert(tree_size(*expr) == 1 + forest_size(list@));
            while i < list.len()
                invariant
                    tree_size(*expr) == 1 + forest_size(list@),
                    i <= list@.len(),
                    forest_renamed(
                        list@.subrange(0, i as int),
                        acc@,
                        names_of(params@),
                        names_of(inner@),
                    ),
                decreases list@.len() - i,
            {
                proof {
                    lemma_forest_member(list@, i as int);
                }
                let x = rename_under(&list[i], params, &inner);
                let ghost before = acc@;
                acc.push(x);
                i = i + 1;
                assert(list@.subrange(0, i as int).drop_last() =~= list@.subrange(0, i - 1));
                assert(acc@.drop_last() =~= before);
            }
            assert(list@.subrange(0, list@.len() as int) =~= list@);
            Parsed::List(acc)
        },
        Parsed::Token(tok) => Parsed::Token(rename_token(tok, params, hidden)),
    }
}

/// Rewrites every free occurrence in `expr` of a name of `params` to that
/// parameter's positional marker. An occurrence inside a lambda whose parameters
/// rebind the name is bound, not free, and stays; so do all other leaves and the
/// shape of the tree.
pub fn rec_replace_sym(expr: &Parsed, params: &Vec<String>) -> (r: Parsed)
    ensures
        renamed(*expr, r, names_of(params@), Seq::empty()),
{
    let none: Vec<String> = Vec::new();
    assert(names_of(none@) =~= Seq::<Seq<char>>::empty());
    rename_under(expr, params, &none)
}

/// The texts of the decimal literals of `expr`, in order: the literals whose
/// values `resolve_float` must give before `expr` is lowered.
pub fn float_literals(expr: &Parsed) -> (r: Vec<String>)
    ensures
        r@.map_values(|s: String| s@) == floats_in(*expr),
    decreases tree_size(*expr),
{
    match expr {
        Parsed::Token(Token::Float(s)) => {
            let mut v: Vec<String> = Vec::new();
            v.push(s.clone());
            assert(v@.map_values(|s: String| s@) =~= seq![s@]);
            v
        },
        Parsed::Token(_) => {
            let v: Vec<String> = Vec::new();
            assert(v@.map_values(|s: String| s@) =~= Seq::<Seq<char>>::empty());
            v
        },
        Parsed::List(list) => {
            let mut acc: Vec<String> = Vec::new();
            let mut i: usize = 0;
            assert(acc@.map_values(|s: String| s@) =~= forest_floats(list@.subrange(0, 0)));
            assert(tree_size(*expr) == 1 + forest_size(list@));
            while i < list.len()
                invariant
                    tree_size(*expr) == 1 + forest_size(list@),
                    i <= list@.len(),
                    acc@.map_values(|s: String| s@) == forest_floats(list@.subrange(0, i as int)),
                decreases list@.len() - i,
            {
                proof {
                    lemma_forest_member(list@, i as int);
                }
                let mut x = float_literals(&list[i]);
                let ghost before = acc@;
                let ghost xs = x@;
                acc.append(&mut x);
                i = i + 1;
                assert(list@.subrange(0, i as int).drop_last() =~= list@.subrange(0, i - 1));
                assert(acc@.map_values(|s: String| s@) =~= before.map_values(|s: String| s@)
                    + xs.map_values(|s: String| s@));
            }
            assert(list@.subrange(0, list@.len() as int) =~= list@);
            acc
        },
    }
}

fn one(b: ByteCode) -> (v: Vec<ByteCode>)
    ensures
        v@ == seq![b],
{
    let mut v: Vec<ByteCode> = Vec::new();
    v.push(b);
    v
}

fn find_entry(sc: &Vec<(String, usize)>, name: &String) -> (r: Option<usize>)
    ensures
        r == find_in_scope(scope_view(*sc), name@),
{
    let ghost v = scope_view(*sc);
    let mut k = sc.len();
    assert(v.subrange(0, k as int) =~= v);
    while k > 0
        invariant
            k <= sc@.len(),
            v == scope_view(*sc),
            find_in_scope(v, name@) == find_in_scope(v.subrange(0, k as int), name@),
        decreases k,
    {
        assert(v.subrange(0, k as int).drop_last() =~= v.subrange(0, k - 1));
        if sc[k - 1].0.eq(name) {
            return Some(sc[k - 1].1);
        }
        k = k - 1;
    }
    None
}

fn is_operand(op: &Token, t: &Token) -> (r: bool)
    ensures
        r == operand_ok(*op, *t),
{
    let logical = match op {
        Token::And | Token::Or | Token::Xor => true,
        _ => false,
    };
    match t {
        Token::Int(_) | Token::Char(_) | Token::Sym(_) | Token::Param(_) => true,
        Token::Bool(_) => logical,
        Token::Float(_) => !logical,
        _ => false,
    }
}

/// The parameter names of the enclosing lambdas, outermost first.
pub open spec fn ctx_view(ctx: Seq<Vec<String>>) -> Seq<Seq<Seq<char>>> {
    ctx.map_values(|ps: Vec<String>| names_of(ps@))
}

fn position_in(params: &Vec<String>, s: &String) -> (r: Option<usize>)
    ensures
        r == param_index(names_of(params@), s@),
{
    let ghost ns = names_of(params@);
    let mut k = params.len();
    assert(ns.subrange(0, k as int) =~= ns);
    while k > 0
        invariant
            k <= params@.len(),
            ns == names_of(params@),
            param_index(ns, s@) == param_index(ns.subrange(0, k as int), s@),
        decreases k,
    {
        assert(ns.subrange(0, k as int).drop_last() =~= ns.subrange(0, k - 1));
        assert(ns.subrange(0, k as int).last() == params@[k - 1]@);
        if params[k - 1].eq(s) {
            assert(param_index(ns.subrange(0, k as int), s@) == Some((k - 1) as usize));
            return Some(k - 1);
        }
        k = k - 1;
    }
    None
}

/// The token as the lowering sees it under the enclosing lambdas' parameters.
fn see(ctx: &Vec<Vec<String>>, tok: &Token) -> (r: Token)
    ensures
        r == seen(ctx_view(ctx@), *tok),
{
    match tok {
        Token::Sym(s) => {
            let ghost cv = ctx_view(ctx@);
            let mut i: usize = ctx.len();
            assert(cv.subrange(0, cv.len() as int) =~= cv);
            while i > 0
                invariant
                    *tok == Token::Sym(*s),
                    i <= ctx@.len(),
                    cv == ctx_view(ctx@),
                    seen(cv, *tok) == seen(cv.subrange(0, i as int), *tok),
                decreases i,
            {
                assert(cv.subrange(0, i as int).drop_last() =~= cv.subrange(0, i - 1));
                assert(cv.subrange(0, i as int).last() == names_of(ctx@[i - 1]@));
                match position_in(&ctx[i - 1], s) {
                    Some(k) => {
                        return Token::Param(k);
                    },
                    None => {},
                }
                i = i - 1;
            }
            copy_token(tok)
        },
        _ => copy_token(tok),
    }
}

fn binary_of(tok: &Token) -> (r: Option<ByteCode>)
    ensures
        r == binary_op(*tok),
{
    match tok {
        Token::Add => Some(ByteCode::Add),
        Token::Sub => Some(ByteCode::Sub),
        Token::Mul => Some(ByteCode::Mul),
        Token::Div => Some(ByteCode::Div),
        Token::Rem => Some(ByteCode::Rem),
        Token::And => Some(ByteCode::And),
        Token::Or => Some(ByteCode::Or),
        Token::Xor => Some(ByteCode::Xor),
        _ => None,
    }
}


/// The body of the function object that `c` pushes, if it is one such push.
pub open spec fn func_body(c: Seq<ByteCode>) -> Seq<ByteCode> {
    if c.len() == 1 && c[0] is Push && c[0]->Push_0 is Ref && *(c[0]->Push_0->Ref_0) is Func {
        (*(c[0]->Push_0->Ref_0))->Func_1@
    } else {
        c
    }
}

/// Each name of the `j`-th scope that is not hidden is bound by no later scope.
pub open spec fn visible_from(ctx: Seq<Seq<Seq<char>>>, j: int, hidden: Seq<Seq<char>>) -> bool {
    forall|i: int, x: Seq<char>|
        j < i < ctx.len() && #[trigger] param_index(ctx[j], x) is Some && !hidden.contains(x)
            ==> #[trigger] param_index(ctx[i], x) is None
}

proof fn lemma_param_index_some(ps: Seq<Seq<char>>, x: Seq<char>)
    requires
        param_index(ps, x) is Some,
    ensures
        ps.contains(x),
    decreases ps.len(),
{
    if ps.last() != x {
        lemma_param_index_some(ps.drop_last(), x);
        let k = choose|k: int| 0 <= k < ps.drop_last().len() && ps.drop_last()[k] == x;
        assert(ps[k] == x);
    } else {
        assert(ps[ps.len() - 1] == x);
    }
}

proof fn lemma_binders_contains(xs: Seq<Parsed>, k: int)
    requires
        0 <= k < xs.len(),
        xs[k] is Token,
        xs[k]->Token_0 is Sym,
    ensures
        binders(xs).contains(xs[k]->Token_0->Sym_0@),
    decreases xs.len(),
{
    let rest = binders(xs.drop_last());
    if k < xs.len() - 1 {
        assert(xs.drop_last()[k] == xs[k]);
        lemma_binders_contains(xs.drop_last(), k);
        let i = choose|i: int| 0 <= i < rest.len() && rest[i] == xs[k]->Token_0->Sym_0@;
        if let Parsed::Token(Token::Sym(_)) = xs.last() {
            assert(rest.push(xs.last()->Token_0->Sym_0@)[i] == rest[i]);
        }
    } else {
        assert(rest.push(xs[k]->Token_0->Sym_0@)[rest.len() as int] == xs[k]->Token_0->Sym_0@);
    }
}

proof fn lemma_seen_reaches(ctx: Seq<Seq<Seq<char>>>, j: int, s: String)
    requires
        0 <= j < ctx.len(),
        param_index(ctx[j], s@) is Some,
        forall|i: int| j < i < ctx.len() ==> #[trigger] param_index(ctx[i], s@) is None,
    ensures
        seen(ctx, Token::Sym(s)) == Token::Param(param_index(ctx[j], s@)->Some_0),
    decreases ctx.len(),
{
    if j < ctx.len() - 1 {
        assert(param_index(ctx[ctx.len() - 1], s@) is None);
        let rest = ctx.drop_last();
        assert(rest[j] == ctx[j]);
        assert forall|i: int| j < i < rest.len() implies #[trigger] param_index(rest[i], s@) is None by {
            assert(rest[i] == ctx[i]);
        }
        lemma_seen_reaches(rest, j, s);
    }
}

/// A token and its renamed form look the same under the parameters `ctx`, when
/// the names are those of the `j`-th scope.
proof fn lemma_seen_renamed(
    ctx: Seq<Seq<Seq<char>>>,
    j: int,
    hidden: Seq<Seq<char>>,
    t: Token,
    u: Token,
)
    requires
        0 <= j < ctx.len(),
        visible_from(ctx, j, hidden),
        token_renamed(t, u, ctx[j], hidden),
    ensures
        seen(ctx, t) == seen(ctx, u),
{
    if let Token::Sym(s) = t {
        if !hidden.contains(s@) && param_index(ctx[j], s@) is Some {
            assert forall|i: int| j < i < ctx.len() implies #[trigger] param_index(ctx[i], s@) is None by {
                assert(param_index(ctx[j], s@) is Some);
            }
            lemma_seen_reaches(ctx, j, s);
        }
    }
}

proof fn lemma_forest_renamed_index(
    xs: Seq<Parsed>,
    ys: Seq<Parsed>,
    ps: Seq<Seq<char>>,
    hidden: Seq<Seq<char>>,
    k: int,
)
    requires
        forest_renamed(xs, ys, ps, hidden),
        0 <= k < xs.len(),
    ensures
        xs.len() == ys.len(),
        renamed(xs[k], ys[k], ps, hidden),
    decreases xs.len(),
{
    if k < xs.len() - 1 {
        lemma_forest_renamed_index(xs.drop_last(), ys.drop_last(), ps, hidden, k);
        assert(xs.drop_last()[k] == xs[k]);
        assert(ys.drop_last()[k] == ys[k]);
    }
}

/// Lowering a tree whose free names of the `j`-th parameter scope were rewritten
/// to their markers gives what lowering the tree itself gives.
proof fn lemma_renamed_gen(
    e: EnvView,
    a: Parsed,
    b: Parsed,
    ctx: Seq<Seq<Seq<char>>>,
    j: int,
    hidden: Seq<Seq<char>>,
    fv: Seq<(Seq<char>, u64)>,
    c: Seq<ByteCode>,
)
    requires
        0 <= j < ctx.len(),
        visible_from(ctx, j, hidden),
        renamed(a, b, ctx[j], hidden),
    ensures
        gen_env(e, a, ctx, fv) == gen_env(e, b, ctx, fv),
        gen_err(e, a, ctx, fv) == gen_err(e, b, ctx, fv),
        gen_code(e, a, ctx, fv, c) == gen_code(e, b, ctx, fv, c),
    decreases a,
{
    match a {
        Parsed::Token(t) => {
            lemma_seen_renamed(ctx, j, hidden, t, b->Token_0);
        },
        Parsed::List(v) => {
            let w = b->List_0;
            let xs = v@;
            let ys = w@;
            let h2 = match lambda_binders(xs) {
                Some(bs) => hidden + bs,
                None => hidden,
            };
            assert(visible_from(ctx, j, h2)) by {
                assert forall|i: int, x: Seq<char>|
                    j < i < ctx.len() && #[trigger] param_index(ctx[j], x) is Some && !h2.contains(x)
                        implies #[trigger] param_index(ctx[i], x) is None by {
                    if hidden.contains(x) {
                        let k = choose|k: int| 0 <= k < hidden.len() && hidden[k] == x;
                        assert(h2[k] == x);
                    }
                }
            }
            if xs.len() > 0 {
                lemma_forest_renamed_index(xs, ys, ctx[j], h2, 0);
            }
            if xs.len() == 3 {
                lemma_forest_renamed_index(xs, ys, ctx[j], h2, 1);
                lemma_forest_renamed_index(xs, ys, ctx[j], h2, 2);
                if xs[1] is Token {
                    lemma_seen_renamed(ctx, j, h2, xs[1]->Token_0, ys[1]->Token_0);
                }
                if xs[2] is Token {
                    lemma_seen_renamed(ctx, j, h2, xs[2]->Token_0, ys[2]->Token_0);
                }
                let cd = if c.len() >= 2 {
                    c.subrange(0, c.len() - 2)
                } else {
                    c
                };
                lemma_renamed_gen(e, xs[2], ys[2], ctx, j, h2, fv, cd);
                if xs[0] == Parsed::Token(Token::Lambda) && xs[1] is List {
                    let ps = xs[1]->List_0@;
                    let qs = ys[1]->List_0@;
                    let bs = binders(ps);
                    assert(h2 == hidden + bs);
                    let h3 = match lambda_binders(ps) {
                        Some(bs2) => h2 + bs2,
                        None => h2,
                    };
                    assert(renamed(xs[1], ys[1], ctx[j], h2));
                    assert(forest_renamed(ps, qs, ctx[j], h3));
                    assert(ps.len() == qs.len()) by {
                        if ps.len() > 0 {
                            lemma_forest_renamed_index(ps, qs, ctx[j], h3, 0);
                        }
                    }
                    assert forall|k: int| 0 <= k < ps.len() implies (#[trigger] ps[k] is Token
                        && ps[k]->Token_0 is Sym) ==> ps[k] == qs[k] by {
                        lemma_forest_renamed_index(ps, qs, ctx[j], h3, k);
                        if ps[k] is Token && ps[k]->Token_0 is Sym {
                            lemma_binders_contains(ps, k);
                            let x = ps[k]->Token_0->Sym_0@;
                            let i = choose|i: int| 0 <= i < bs.len() && bs[i] == x;
                            assert(h2[hidden.len() + i] == x);
                            assert(h3.contains(x)) by {
                                assert(h3[hidden.len() + i] == x);
                            }
                        }
                    }
                    assert(all_syms(ps) == all_syms(qs)) by {
                        assert forall|k: int| 0 <= k < ps.len() implies renamed(ps[k], qs[k], ctx[j], h3) by {
                            lemma_forest_renamed_index(ps, qs, ctx[j], h3, k);
                        }
                        if all_syms(qs) {
                            assert forall|k: int| 0 <= k < ps.len() implies #[trigger] ps[k] is Token
                                && ps[k]->Token_0 is Sym by {
                                assert(qs[k] is Token && qs[k]->Token_0 is Sym);
                                lemma_forest_renamed_index(ps, qs, ctx[j], h3, k);
                            }
                        }
                    }
                    if all_syms(ps) {
                        assert(sym_names(ps) =~= sym_names(qs));
                        let inner = ctx.push(sym_names(ps));
                        assert(inner[j] == ctx[j]);
                        assert(visible_from(inner, j, h2)) by {
                            assert forall|i: int, x: Seq<char>|
                                j < i < inner.len() && #[trigger] param_index(inner[j], x) is Some
                                    && !h2.contains(x) implies #[trigger] param_index(inner[i], x) is None by {
                                if i < ctx.len() {
                                    assert(inner[i] == ctx[i]);
                                } else {
                                    if param_index(sym_names(ps), x) is Some {
                                        lemma_param_index_some(sym_names(ps), x);
                                        let k = choose|k: int| 0 <= k < sym_names(ps).len() && sym_names(ps)[k] == x;
                                        lemma_binders_contains(ps, k);
                                        let m = choose|m: int| 0 <= m < bs.len() && bs[m] == x;
                                        assert(h2[hidden.len() + m] == x);
                                    }
                                }
                            }
                        }
                        let e2 = (e.0.push(Seq::empty()), e.1);
                        lemma_renamed_gen(e2, xs[2], ys[2], inner, j, h2, fv, func_body(c));
                    }
                }
            }
        },
    }
}

fn param_names(ps: &Vec<Parsed>) -> (r: Option<Vec<String>>)
    ensures
        r is Some <==> all_syms(ps@),
        r is Some ==> names_of(r->Some_0@) == sym_names(ps@) && r->Some_0@.len() == ps@.len(),
{
    let mut names: Vec<String> = Vec::new();
    let mut i: usize = 0;
    while i < ps.len()
        invariant
            i <= ps@.len(),
            names@.len() == i,
            forall|k: int|
                0 <= k < i ==> #[trigger] ps@[k] is Token && ps@[k]->Token_0 is Sym && names@[k]@
                    == ps@[k]->Token_0->Sym_0@,
        decreases ps@.len() - i,
    {
        match &ps[i] {
            Parsed::Token(Token::Sym(s)) => names.push(s.clone()),
            _ => {
                assert(!(ps@[i as int] is Token && ps@[i as int]->Token_0 is Sym));
                return None;
            },
        }
        i = i + 1;
    }
    assert(names_of(names@) =~= sym_names(ps@));
    Some(names)
}

impl GenEnv {
    pub open spec fn scopes(&self) -> Scopes {
        self.sym@.map_values(|sc: Vec<(String, usize)>| scope_view(sc))
    }

    pub open spec fn env(&self) -> EnvView {
        (self.scopes(), self.pool_index as int)
    }

    pub open spec fn float_view(&self) -> Seq<(Seq<char>, u64)> {
        self.floats@.map_values(|p: (String, u64)| (p.0@, p.1))
    }

    /// There is always an innermost scope, no scope binds a name twice, and every
    /// bound slot was allocated before the counter's value.
    pub open spec fn wf(&self) -> bool {
        self.sym@.len() >= 1 && scopes_ok(self.scopes(), self.pool_index as int)
    }

    pub fn new() -> (g: Self)
        ensures
            g.wf(),
            g.env() == (seq![Seq::<(Seq<char>, usize)>::empty()], 0int),
            g.float_view() == Seq::<(Seq<char>, u64)>::empty(),
    {
        let mut sym: Vec<Vec<(String, usize)>> = Vec::new();
        sym.push(Vec::new());
        let g = GenEnv { sym, pool_index: 0, floats: Vec::new() };
        assert(g.scopes() =~= seq![Seq::<(Seq<char>, usize)>::empty()]) by {
            assert(scope_view(g.sym@[0]) =~= Seq::<(Seq<char>, usize)>::empty());
        }
        assert(g.float_view() =~= Seq::<(Seq<char>, u64)>::empty());
        g
    }

    /// Gives the binary64 value of the decimal literal `text`, as its bit pattern.
    pub fn resolve_float(&mut self, text: String, bits: u64)
        ensures
            final(self).float_view() == old(self).float_view().push((text@, bits)),
            final(self).sym == old(self).sym,
            final(self).pool_index == old(self).pool_index,
    {
        let ghost t = text@;
        self.floats.push((text, bits));
        assert(self.float_view() =~= old(self).float_view().push((t, bits)));
    }

    fn find_slot(&self, name: &String) -> (r: Option<usize>)
        ensures
            r == lookup(self.scopes(), name@),
    {
        let ghost scs = self.scopes();
        let mut i = self.sym.len();
        assert(scs.subrange(0, i as int) =~= scs);
        while i > 0
            invariant
                i <= self.sym@.len(),
                scs == self.scopes(),
                lookup(scs, name@) == lookup(scs.subrange(0, i as int), name@),
            decreases i,
        {
            assert(scs.subrange(0, i as int).drop_last() =~= scs.subrange(0, i - 1));
            assert(scs.subrange(0, i as int).last() == scope_view(self.sym@[i - 1]));
            match find_entry(&self.sym[i - 1], name) {
                Some(k) => {
                    return Some(k);
                },
                None => {},
            }
            i = i - 1;
        }
        None
    }

    fn find_float_bits(&self, text: &String) -> (r: Option<u64>)
        ensures
            r == find_float(self.float_view(), text@),
    {
        let ghost fv = self.float_view();
        let mut k = self.floats.len();
        assert(fv.subrange(0, k as int) =~= fv);
        while k > 0
            invariant
                k <= self.floats@.len(),
                fv == self.float_view(),
                find_float(fv, text@) == find_float(fv.subrange(0, k as int), text@),
            decreases k,
        {
            assert(fv.subrange(0, k as int).drop_last() =~= fv.subrange(0, k - 1));
            if self.floats[k - 1].0.eq(text) {
                return Some(self.floats[k - 1].1);
            }
            k = k - 1;
        }
        None
    }

    fn leaf(&self, tok: &Token) -> (r: Result<Vec<ByteCode>, CodeGenError>)
        ensures
            match r {
                Ok(c) => leaf_err(self.env(), *tok, self.float_view()) is None && leaf_code(
                    self.env(),
                    *tok,
                    self.float_view(),
                    c@,
                ),
                Err(x) => leaf_err(self.env(), *tok, self.float_view()) == Some(x),
            },
    {
        match tok {
            Token::Sym(s) => match self.find_slot(s) {
                Some(i) => Ok(one(ByteCode::Get(i))),
                None => Err(CodeGenError::SymbolNotFound),
            },
            Token::Param(k) => Ok(one(ByteCode::Arg(*k))),
            Token::Bool(b) => Ok(one(ByteCode::Push(Value::Bool(*b)))),
            Token::Int(i) => Ok(one(ByteCode::Push(Value::Int(*i)))),
            Token::Char(c) => Ok(one(ByteCode::Push(Value::Char(*c)))),
            Token::Nil => Ok(one(ByteCode::Push(Value::Nil))),
            Token::Float(t) => match self.find_float_bits(t) {
                Some(bits) => Ok(one(ByteCode::Push(Value::Float(bits)))),
                None => Err(CodeGenError::UnknownFloat),
            },
            Token::Str(s) => Ok(one(ByteCode::Push(Value::Ref(Rc::new(ObjType::Str(s.clone())))))),
            _ => Err(CodeGenError::UnknownForm),
        }
    }

    fn define(&mut self, name: &String, c: Vec<ByteCode>) -> (r: Result<Vec<ByteCode>, CodeGenError>)
        requires
            old(self).wf(),
        ensures
            final(self).wf(),
            final(self).sym@.len() == old(self).sym@.len(),
            final(self).floats == old(self).floats,
            final(self).env() == define_env(old(self).env(), name@),
            match r {
                Ok(v) => v@ == c@ + seq![
                    ByteCode::Store(define_slot(old(self).env(), name@)),
                    ByteCode::Get(define_slot(old(self).env(), name@)),
                ] && !(find_in_scope(old(self).env().0.last(), name@) is None && old(self).pool_index
                    == usize::MAX),
                Err(x) => x == CodeGenError::OutOfSlots && find_in_scope(
                    old(self).env().0.last(),
                    name@,
                ) is None && old(self).pool_index == usize::MAX,
            },
    {
        let last = self.sym.len() - 1;
        assert(self.scopes().last() == scope_view(self.sym@[last as int]));
        let found = find_entry(&self.sym[last], name);
        let mut c = c;
        let ghost c0 = c@;
        match found {
            Some(k) => {
                c.push(ByteCode::Store(k));
                c.push(ByteCode::Get(k));
                assert(c@ =~= c0 + seq![ByteCode::Store(k), ByteCode::Get(k)]);
                Ok(c)
            },
            None => {
                if self.pool_index == usize::MAX {
                    return Err(CodeGenError::OutOfSlots);
                }
                let idx = self.pool_index;
                let ghost old_scopes = self.scopes();
                let mut cur = self.sym.pop().unwrap();
                let ghost cur0 = cur;
                cur.push((name.clone(), idx));
                assert(scope_view(cur) =~= scope_view(cur0).push((name@, idx)));
                self.sym.push(cur);
                assert(self.scopes() =~= old_scopes.update(
                    last as int,
                    scope_view(cur0).push((name@, idx)),
                ));
                proof {
                    let scs = self.scopes();
                    let nc = scope_view(cur0).push((name@, idx));
                    lemma_find_none(scope_view(cur0), name@);
                    assert(scope_view(cur0) == old_scopes[last as int]);
                    assert forall|i: int, a: int, b: int|
                        0 <= i < scs.len() && 0 <= a < b < scs[i].len() implies #[trigger] scs[i][a].0
                            != #[trigger] scs[i][b].0 by {
                        if i == last {
                            if b == nc.len() - 1 {
                                assert(scs[i][a] == scope_view(cur0)[a]);
                            } else {
                                assert(scs[i][a] == old_scopes[i][a]);
                                assert(scs[i][b] == old_scopes[i][b]);
                            }
                        } else {
                            assert(scs[i] == old_scopes[i]);
                        }
                    }
                    assert forall|i: int, a: int| 0 <= i < scs.len() && 0 <= a < scs[i].len() implies #[trigger] scs[i][a].1
                        < idx + 1 by {
                        if i == last {
                            if a < nc.len() - 1 {
                                assert(scs[i][a] == old_scopes[i][a]);
                            }
                        } else {
                            assert(scs[i] == old_scopes[i]);
                        }
                    }
                }
                c.push(ByteCode::Store(idx));
                c.push(ByteCode::Get(idx));
                assert(c@ =~= c0 + seq![ByteCode::Store(idx), ByteCode::Get(idx)]);
                self.pool_index = idx + 1;
                Ok(c)
            },
        }
    }

    /// Lowers `expr` under the parameters `ctx` of the enclosing lambdas.
    fn generate(&mut self, expr: &Parsed, ctx: &mut Vec<Vec<String>>) -> (r: Result<
        Vec<ByteCode>,
        CodeGenError,
    >)
        requires
            old(self).wf(),
        ensures
            final(self).wf(),
            final(self).sym@.len() == old(self).sym@.len(),
            final(self).floats == old(self).floats,
            final(ctx)@ == old(ctx)@,
            gen_ok(
                old(self).env(),
                *expr,
                ctx_view(old(ctx)@),
                old(self).float_view(),
                final(self).env(),
                vres(r),
            ),
        decreases tree_size(*expr),
    {
        let ghost e0 = self.env();
        let ghost fv = self.float_view();
        let ghost cv = ctx_view(ctx@);
        match expr {
            Parsed::Token(tok) => {
                let t = see(ctx, tok);
                self.leaf(&t)
            },
            Parsed::List(v) => {
                let n = v.len();
                if n != 3 {
                    let a: u8 = if n <= 1 {
                        0
                    } else if n - 1 > 255 {
                        255
                    } else {
                        (n - 1) as u8
                    };
                    return Err(CodeGenError::WrongNumberOfArgument(2, a));
                }
                proof {
                    lemma_forest_member(v@, 2);
                }
                match &v[0] {
                    Parsed::Token(Token::Define) => match &v[1] {
                        Parsed::Token(tk) => {
                            let t = see(ctx, tk);
                            match t {
                                Token::Sym(name) => {
                                    let res = self.generate(&v[2], ctx);
                                    match res {
                                        Err(x) => Err(x),
                                        Ok(c) => {
                                            let ghost cc = c@;
                                            let out = self.define(&name, c);
                                            proof {
                                                if out is Ok {
                                                    let w = vres(out)->Ok_0;
                                                    assert(w.subrange(0, w.len() - 2) =~= cc);
                                                }
                                            }
                                            out
                                        },
                                    }
                                },
                                _ => Err(CodeGenError::ArgTypeError),
                            }
                        },
                        _ => Err(CodeGenError::ArgTypeError),
                    },
                    Parsed::Token(Token::Lambda) => match &v[1] {
                        Parsed::List(ps) => {
                            let names = match param_names(ps) {
                                Some(names) => names,
                                None => {
                                    return Err(CodeGenError::NotValidLambda);
                                },
                            };
                            let count = names.len();
                            let replaced = rec_replace_sym(&v[2], &names);
                            proof {
                                lemma_renamed_size(v@[2], replaced, names_of(names@), Seq::empty());
                            }
                            let ghost nv = names_of(names@);
                            ctx.push(names);
                            assert(ctx_view(ctx@) =~= cv.push(sym_names(ps@)));
                            let ghost old_sym = self.sym@;
                            self.sym.push(Vec::new());
                            assert(self.scopes() =~= e0.0.push(Seq::empty())) by {
                                assert(scope_view(self.sym@[old_sym.len() as int])
                                    =~= Seq::<(Seq<char>, usize)>::empty());
                            }
                            let res = self.generate(&replaced, ctx);
                            let ghost em = self.env();
                            proof {
                                let inner = cv.push(sym_names(ps@));
                                assert(inner[cv.len() as int] == nv);
                                let code = match vres(res) {
                                    Ok(c) => c,
                                    Err(_) => Seq::empty(),
                                };
                                lemma_renamed_gen(
                                    (e0.0.push(Seq::empty()), e0.1),
                                    v@[2],
                                    replaced,
                                    inner,
                                    cv.len() as int,
                                    Seq::empty(),
                                    fv,
                                    code,
                                );
                            }
                            self.sym.pop();
                            assert(self.scopes() =~= em.0.drop_last());
                            let ghost before_pop = ctx@;
                            ctx.pop();
                            assert(ctx@ =~= before_pop.drop_last());
                            match res {
                                Err(x) => Err(x),
                                Ok(c) => Ok(
                                    one(ByteCode::Push(Value::Ref(Rc::new(ObjType::Func(count, c))))),
                                ),
                            }
                        },
                        _ => Err(CodeGenError::NotValidLambda),
                    },
                    Parsed::Token(op) => match binary_of(op) {
                        None => Err(CodeGenError::UnknownForm),
                        Some(b) => match (&v[1], &v[2]) {
                            (Parsed::Token(x), Parsed::Token(y)) => {
                                let x = see(ctx, x);
                                let y = see(ctx, y);
                                if !(is_operand(op, &x) && is_operand(op, &y)) {
                                    return Err(CodeGenError::ArgTypeError);
                                }
                                let r1 = self.leaf(&x);
                                let r2 = self.leaf(&y);
                                match r1 {
                                    Err(e) => Err(e),
                                    Ok(c1) => match r2 {
                                        Err(e) => Err(e),
                                        Ok(c2) => {
                                            let mut c1 = c1;
                                            let mut c2 = c2;
                                            let ghost d1 = c1@;
                                            let ghost d2 = c2@;
                                            c1.append(&mut c2);
                                            c1.push(b);
                                            assert(seq![c1@[0]] =~= d1);
                                            assert(seq![c1@[1]] =~= d2);
                                            Ok(c1)
                                        },
                                    },
                                }
                            },
                            _ => Err(CodeGenError::ArgTypeError),
                        },
                    },
                    Parsed::List(_) => Err(CodeGenError::UnknownForm),
                }
            },
        }
    }

    /// Lowers `expr` and ends the code with `HALT`.
    pub fn generate_with_halt(&mut self, expr: &Parsed) -> (r: Result<Vec<ByteCode>, CodeGenError>)
        requires
            old(self).wf(),
        ensures
            final(self).wf(),
            final(self).sym@.len() == old(self).sym@.len(),
            final(self).floats == old(self).floats,
            final(self).env() == gen_env(old(self).env(), *expr, Seq::empty(), old(self).float_view()),
            match r {
                Ok(c) => c@.len() >= 1 && c@.last() == ByteCode::HALT && gen_err(
                    old(self).env(),
                    *expr,
                    Seq::empty(),
                    old(self).float_view(),
                ) is None && gen_code(
                    old(self).env(),
                    *expr,
                    Seq::empty(),
                    old(self).float_view(),
                    c@.drop_last(),
                ),
                Err(x) => gen_err(old(self).env(), *expr, Seq::empty(), old(self).float_view())
                    == Some(x),
            },
    {
        let mut ctx: Vec<Vec<String>> = Vec::new();
        assert(ctx_view(ctx@) =~= Seq::<Seq<Seq<char>>>::empty());
        match self.generate(expr, &mut ctx) {
            Ok(code) => {
                let mut code = code;
                let ghost c0 = code@;
                code.push(ByteCode::HALT);
                assert(code@.drop_last() =~= c0);
                Ok(code)
            },
            Err(e) => Err(e),
        }
    }
}

/// `(def name lit)` with a literal leaf as the value.
pub open spec fn is_define_of_literal(expr: Parsed, ctx: Seq<Seq<Seq<char>>>) -> bool {
    &&& expr is List
    &&& expr->List_0@.len() == 3
    &&& expr->List_0@[0] == Parsed::Token(Token::Define)
    &&& expr->List_0@[1] is Token
    &&& seen(ctx, expr->List_0@[1]->Token_0) is Sym
    &&& expr->List_0@[2] is Token
    &&& ({
        let t = expr->List_0@[2]->Token_0;
        t is Int || t is Bool || t is Char || t is Nil
    })
}

pub open spec fn defined_name(expr: Parsed, ctx: Seq<Seq<Seq<char>>>) -> Seq<char> {
    seen(ctx, expr->List_0@[1]->Token_0)->Sym_0@
}

/// The environment after lowering each of `xs` in turn.
pub open spec fn sequence_env(e: EnvView, xs: Seq<Parsed>, ctx: Seq<Seq<Seq<char>>>, fv: Seq<(Seq<char>, u64)>) -> EnvView
    decreases xs.len(),
{
    if xs.len() == 0 {
        e
    } else {
        gen_env(sequence_env(e, xs.drop_last(), ctx, fv), xs.last(), ctx, fv)
    }
}

/// Defining a name binds it in the innermost scope, to the slot it had there if
/// it had one; defining it again reuses that slot and leaves the scopes and the
/// slot counter as they are.
pub proof fn lemma_redefine_reuses_slot(
    e0: EnvView,
    expr: Parsed,
    ctx: Seq<Seq<Seq<char>>>,
    fv: Seq<(Seq<char>, u64)>,
)
    requires
        is_define_of_literal(expr, ctx),
        e0.0.len() >= 1,
        gen_err(e0, expr, ctx, fv) is None,
    ensures
        ({
            let name = defined_name(expr, ctx);
            let e1 = gen_env(e0, expr, ctx, fv);
            &&& e1.0.len() == e0.0.len()
            &&& e1.0.drop_last() == e0.0.drop_last()
            &&& e1.0.last().len() == e0.0.last().len() + if find_in_scope(e0.0.last(), name) is Some {
                0int
            } else {
                1int
            }
            &&& find_in_scope(e1.0.last(), name) == Some(define_slot(e0, name))
            &&& gen_err(e1, expr, ctx, fv) is None
            &&& gen_env(e1, expr, ctx, fv) == e1
            &&& define_slot(e1, name) == define_slot(e0, name)
        }),
{
    let name = defined_name(expr, ctx);
    let val = expr->List_0@[2];
    assert(gen_env(e0, val, ctx, fv) == e0);
    assert(gen_err(e0, val, ctx, fv) is None);
    let e1 = gen_env(e0, expr, ctx, fv);
    assert(e1 == define_env(e0, name));
    if find_in_scope(e0.0.last(), name) is None {
        assert(e0.1 < usize::MAX);
        let sc = e0.0.last().push((name, e0.1 as usize));
        assert(e1.0 == e0.0.update(e0.0.len() - 1, sc));
        assert(e1.0.drop_last() =~= e0.0.drop_last());
        assert(e1.0.last() == sc);
        assert(find_in_scope(sc, name) == Some(e0.1 as usize));
    }
    assert(gen_env(e1, val, ctx, fv) == e1);
    assert(gen_err(e1, val, ctx, fv) is None);
}

/// Defining again, to any literal, a name that the innermost scope binds stores
/// into its slot and changes neither the scopes nor the slot counter.
pub proof fn lemma_redefine_bound(
    e1: EnvView,
    expr: Parsed,
    ctx: Seq<Seq<Seq<char>>>,
    fv: Seq<(Seq<char>, u64)>,
)
    requires
        is_define_of_literal(expr, ctx),
        e1.0.len() >= 1,
        find_in_scope(e1.0.last(), defined_name(expr, ctx)) is Some,
    ensures
        gen_err(e1, expr, ctx, fv) is None,
        gen_env(e1, expr, ctx, fv) == e1,
        define_slot(e1, defined_name(expr, ctx)) == find_in_scope(
            e1.0.last(),
            defined_name(expr, ctx),
        )->Some_0,
{
    let val = expr->List_0@[2];
    assert(gen_env(e1, val, ctx, fv) == e1);
    assert(gen_err(e1, val, ctx, fv) is None);
}

/// A run of definitions of one name, each to a literal, leaves the environment
/// that the first definition left: the later ones reuse its slot.
pub proof fn lemma_redefine_sequence(
    e0: EnvView,
    xs: Seq<Parsed>,
    ctx: Seq<Seq<Seq<char>>>,
    fv: Seq<(Seq<char>, u64)>,
)
    requires
        xs.len() >= 1,
        forall|k: int| 0 <= k < xs.len() ==> #[trigger] is_define_of_literal(xs[k], ctx),
        forall|k: int| 0 <= k < xs.len() ==> #[trigger] defined_name(xs[k], ctx) == defined_name(xs[0], ctx),
        e0.0.len() >= 1,
        gen_err(e0, xs[0], ctx, fv) is None,
    ensures
        sequence_env(e0, xs, ctx, fv) == gen_env(e0, xs[0], ctx, fv),
        find_in_scope(sequence_env(e0, xs, ctx, fv).0.last(), defined_name(xs[0], ctx)) == Some(
            define_slot(e0, defined_name(xs[0], ctx)),
        ),
    decreases xs.len(),
{
    lemma_redefine_reuses_slot(e0, xs[0], ctx, fv);
    if xs.len() == 1 {
        assert(xs.drop_last() =~= Seq::<Parsed>::empty());
        assert(sequence_env(e0, xs.drop_last(), ctx, fv) == e0);
    } else {
        let ys = xs.drop_last();
        assert(ys[0] == xs[0]);
        assert forall|k: int| 0 <= k < ys.len() implies #[trigger] is_define_of_literal(ys[k], ctx) by {
            assert(ys[k] == xs[k]);
        }
        assert forall|k: int| 0 <= k < ys.len() implies #[trigger] defined_name(ys[k], ctx) == defined_name(ys[0], ctx) by {
            assert(ys[k] == xs[k]);
        }
        lemma_redefine_sequence(e0, ys, ctx, fv);
        let e1 = gen_env(e0, xs[0], ctx, fv);
        assert(defined_name(xs.last(), ctx) == defined_name(xs[0], ctx));
        assert(is_define_of_literal(xs[xs.len() - 1], ctx));
        lemma_redefine_bound(e1, xs.last(), ctx, fv);
    }
}

/// The subtree of `t` at the path `p` of child positions, if there is one.
pub open spec fn subtree(t: Parsed, p: Seq<int>) -> Option<Parsed>
    decreases p.len(),
{
    if p.len() == 0 {
        Some(t)
    } else {
        match t {
            Parsed::List(v) => if 0 <= p[0] < v@.len() {
                subtree(v@[p[0]], p.drop_first())
            } else {
                None
            },
            Parsed::Token(_) => None,
        }
    }
}

/// No lambda form inside `t` rebinds a name of `ps`.
pub open spec fn no_rebinding(t: Parsed, ps: Seq<Seq<char>>) -> bool {
    forall|p: Seq<int>, x: Seq<char>|
        #[trigger] subtree(t, p) is Some && subtree(t, p)->Some_0 is List && lambda_binders(
            subtree(t, p)->Some_0->List_0@,
        ) is Some && lambda_binders(subtree(t, p)->Some_0->List_0@)->Some_0.contains(x)
            ==> #[trigger] param_index(ps, x) is None
}

/// What a leaf becomes: a parameter's name its marker, anything else itself.
pub open spec fn leaf_renamed(t: Token, ps: Seq<Seq<char>>) -> Token {
    match t {
        Token::Sym(s) => match param_index(ps, s@) {
            Some(k) => Token::Param(k),
            None => t,
        },
        _ => t,
    }
}

/// At each path, the rewritten tree has a list of the same length where the
/// tree has a list, and the renamed leaf where it has a leaf.
pub open spec fn renamed_at(a: Parsed, b: Parsed, ps: Seq<Seq<char>>, p: Seq<int>) -> bool {
    match subtree(a, p) {
        None => subtree(b, p) is None,
        Some(Parsed::List(v)) => subtree(b, p) is Some && subtree(b, p)->Some_0 is List
            && subtree(b, p)->Some_0->List_0@.len() == v@.len(),
        Some(Parsed::Token(t)) => subtree(b, p) == Some(Parsed::Token(leaf_renamed(t, ps))),
    }
}

proof fn lemma_renamed_path(
    a: Parsed,
    b: Parsed,
    ps: Seq<Seq<char>>,
    hidden: Seq<Seq<char>>,
    p: Seq<int>,
)
    requires
        renamed(a, b, ps, hidden),
        forall|x: Seq<char>| #[trigger] hidden.contains(x) ==> param_index(ps, x) is None,
        no_rebinding(a, ps),
    ensures
        renamed_at(a, b, ps, p),
    decreases p.len(),
{
    match a {
        Parsed::Token(t) => {
            if let Token::Sym(s) = t {
                if hidden.contains(s@) {
                    assert(param_index(ps, s@) is None);
                }
            }
        },
        Parsed::List(v) => {
            let w = b->List_0;
            let h2 = match lambda_binders(v@) {
                Some(bs) => hidden + bs,
                None => hidden,
            };
            if v@.len() > 0 {
                lemma_forest_renamed_index(v@, w@, ps, h2, 0);
            }
            if p.len() > 0 && 0 <= p[0] < v@.len() {
                let k = p[0];
                let q = p.drop_first();
                lemma_forest_renamed_index(v@, w@, ps, h2, k);
                assert(subtree(a, Seq::<int>::empty()) == Some(a));
                assert forall|x: Seq<char>| #[trigger] h2.contains(x) implies param_index(ps, x) is None by {
                    if !hidden.contains(x) {
                        let bs = lambda_binders(v@)->Some_0;
                        let i = choose|i: int| 0 <= i < h2.len() && h2[i] == x;
                        if i < hidden.len() {
                            assert(hidden[i] == x);
                        } else {
                            assert(bs[i - hidden.len()] == x);
                            assert(bs.contains(x));
                        }
                    }
                }
                assert forall|r: Seq<int>, x: Seq<char>|
                    #[trigger] subtree(v@[k], r) is Some && subtree(v@[k], r)->Some_0 is List
                        && lambda_binders(subtree(v@[k], r)->Some_0->List_0@) is Some && lambda_binders(
                        subtree(v@[k], r)->Some_0->List_0@,
                    )->Some_0.contains(x) implies #[trigger] param_index(ps, x) is None by {
                    let pr = seq![k] + r;
                    assert(pr.drop_first() =~= r);
                    assert(subtree(a, pr) == subtree(v@[k], r));
                }
                lemma_renamed_path(v@[k], w@[k], ps, h2, q);
            }
        },
    }
}

/// Rewriting a lambda body in which no inner lambda rebinds a parameter keeps the
/// shape of the tree at every path, turns each leaf that names a parameter into
/// that parameter's marker, and keeps every other leaf as it is.
pub proof fn lemma_replace_at_every_path(a: Parsed, b: Parsed, ps: Seq<Seq<char>>, p: Seq<int>)
    requires
        renamed(a, b, ps, Seq::empty()),
        no_rebinding(a, ps),
    ensures
        renamed_at(a, b, ps, p),
{
    lemma_renamed_path(a, b, ps, Seq::empty(), p);
}

} // verus!
