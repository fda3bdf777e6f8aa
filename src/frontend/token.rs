//! Classifies one atom of source text as a token. Every atom is some token:
//! what is not a keyword or a literal is a symbol.
use vstd::prelude::*;
use vstd::string::{StrSliceExecFns, StringExecFns};

verus! {

#[derive(Clone, Debug, PartialEq)]
pub enum Token {
    Add,
    Sub,
    Mul,
    Div,
    Rem,
    Inc,
    Dec,
    And,
    Or,
    Not,
    Xor,
    Greater,
    GreaterEq,
    Less,
    LessEq,
    Eq,
    Neq,
    StrictEq,
    StrictNeq,
    Define,
    Assign,
    Cond,
    Match,
    List,
    Car,
    Cdr,
    Lambda,
    Require,
    Provide,
    Nil,
    Bool(bool),
    Int(i64),
    /// A decimal literal, as written.
    Float(String),
    /// A Unicode code point.
    Char(u32),
    Str(String),
    Sym(String),
    /// A lambda's positional parameter, put in place of the parameter's name when
    /// the lambda's body is rewritten.
    Param(usize),
}

/// The token of a keyword or operator, if `s` is one.
pub open spec fn keyword(s: Seq<char>) -> Option<Token> {
    if s == "+"@ {
        Some(Token::Add)
    } else if s == "-"@ {
        Some(Token::Sub)
    } else if s == "*"@ {
        Some(Token::Mul)
    } else if s == "/"@ {
        Some(Token::Div)
    } else if s == "%"@ {
        Some(Token::Rem)
    } else if s == "++"@ {
        Some(Token::Inc)
    } else if s == "--"@ {
        Some(Token::Dec)
    } else if s == "&"@ {
        Some(Token::And)
    } else if s == "|"@ {
        Some(Token::Or)
    } else if s == "!"@ {
        Some(Token::Not)
    } else if s == "^"@ {
        Some(Token::Xor)
    } else if s == ">"@ {
        Some(Token::Greater)
    } else if s == ">="@ {
        Some(Token::GreaterEq)
    } else if s == "<"@ {
        Some(Token::Less)
    } else if s == "<="@ {
        Some(Token::LessEq)
    } else if s == "=="@ {
        Some(Token::Eq)
    } else if s == "!="@ {
        Some(Token::Neq)
    } else if s == "==="@ {
        Some(Token::StrictEq)
    } else if s == "!=="@ {
        Some(Token::StrictNeq)
    } else if s == "def"@ || s == "define"@ {
        Some(Token::Define)
    } else if s == "set"@ {
        Some(Token::Assign)
    } else if s == "cond"@ {
        Some(Token::Cond)
    } else if s == "match"@ {
        Some(Token::Match)
    } else if s == "list"@ {
        Some(Token::List)
    } else if s == "car"@ {
        Some(Token::Car)
    } else if s == "cdr"@ {
        Some(Token::Cdr)
    } else if s == "lambda"@ || s == "\u{3bb}"@ {
        Some(Token::Lambda)
    } else if s == "require"@ {
        Some(Token::Require)
    } else if s == "provide"@ {
        Some(Token::Provide)
    } else if s == "nil"@ {
        Some(Token::Nil)
    } else if s == "true"@ {
        Some(Token::Bool(true))
    } else if s == "false"@ {
        Some(Token::Bool(false))
    } else {
        None
    }
}

pub open spec fn is_digit(c: char) -> bool {
    '0' <= c <= '9'
}

pub open spec fn all_digits(s: Seq<char>) -> bool {
    s.len() > 0 && forall|i: int| 0 <= i < s.len() ==> is_digit(#[trigger] s[i])
}

/// The number that a string of decimal digits denotes.
pub open spec fn digits_value(s: Seq<char>) -> int
    decreases s.len(),
{
    if s.len() == 0 {
        0
    } else {
        digits_value(s.drop_last()) * 10 + (s.last() as int - '0' as int)
    }
}

/// Digits, a point, digits.
pub open spec fn is_float_text(s: Seq<char>) -> bool {
    exists|p: int|
        0 < p < s.len() - 1 && s[p] == '.' && all_digits(s.subrange(0, p)) && all_digits(
            #[trigger] s.subrange(p + 1, s.len() as int),
        )
}

/// A backslash and one character other than a line break.
pub open spec fn is_char_text(s: Seq<char>) -> bool {
    s.len() == 2 && s[0] == '\\' && s[1] != '\n'
}

/// Text between two double quotes, with no line break in it.
pub open spec fn is_str_text(s: Seq<char>) -> bool {
    s.len() >= 2 && s[0] == '"' && s.last() == '"' && forall|i: int|
        0 < i < s.len() - 1 ==> #[trigger] s[i] != '\n'
}

/// Whether `t` is the token of the atom `s`: a keyword; else an integer literal
/// that fits in an `i64`; else a decimal literal; else a character literal; else
/// a string literal; else a symbol.
pub open spec fn token_of(t: Token, s: Seq<char>) -> bool {
    match keyword(s) {
        Some(k) => t == k,
        None => if all_digits(s) && digits_value(s) <= i64::MAX {
            t == Token::Int(digits_value(s) as i64)
        } else if is_float_text(s) {
            t is Float && t->Float_0@ == s
        } else if is_char_text(s) {
            t == Token::Char(s[1] as u32)
        } else if is_str_text(s) {
            t is Str && t->Str_0@ == s.subrange(1, s.len() - 1)
        } else {
            t is Sym && t->Sym_0@ == s
        },
    }
}

/// The characters of `s`.
pub fn chars_of(s: &str) -> (v: Vec<char>)
    ensures
        v@ == s@,
{
    let n = s.unicode_len();
    let mut v: Vec<char> = Vec::new();
    let mut i: usize = 0;
    while i < n
        invariant
            n == s@.len(),
            i <= n,
            v@ == s@.subrange(0, i as int),
        decreases n - i,
    {
        v.push(s.get_char(i));
        i = i + 1;
        assert(v@ =~= s@.subrange(0, i as int));
    }
    assert(v@ =~= s@);
    v
}

/// Whether `v` spells `w`.
pub fn spells(v: &Vec<char>, w: &str) -> (r: bool)
    ensures
        r == (v@ == w@),
{
    let n = w.unicode_len();
    if v.len() != n {
        return false;
    }
    let mut i: usize = 0;
    while i < n
        invariant
            n == w@.len(),
            n == v@.len(),
            i <= n,
            v@.subrange(0, i as int) == w@.subrange(0, i as int),
        decreases n - i,
    {
        if v[i] != w.get_char(i) {
            return false;
        }
        i = i + 1;
        assert(v@.subrange(0, i as int) =~= w@.subrange(0, i as int)) by {
            assert forall|k: int| 0 <= k < i implies v@.subrange(0, i as int)[k] == w@.subrange(0, i as int)[k] by {
                if k < i - 1 {
                    assert(v@.subrange(0, i - 1)[k] == w@.subrange(0, i - 1)[k]);
                }
            }
        }
    }
    assert(v@ =~= v@.subrange(0, n as int));
    assert(w@ =~= w@.subrange(0, n as int));
    true
}

fn keyword_of(v: &Vec<char>) -> (r: Option<Token>)
    ensures
        r == keyword(v@),
{
    if spells(v, "+") {
        Some(Token::Add)
    } else if spells(v, "-") {
        Some(Token::Sub)
    } else if spells(v, "*") {
        Some(Token::Mul)
    } else if spells(v, "/") {
        Some(Token::Div)
    } else if spells(v, "%") {
        Some(Token::Rem)
    } else if spells(v, "++") {
        Some(Token::Inc)
    } else if spells(v, "--") {
        Some(Token::Dec)
    } else if spells(v, "&") {
        Some(Token::And)
    } else if spells(v, "|") {
        Some(Token::Or)
    } else if spells(v, "!") {
        Some(Token::Not)
    } else if spells(v, "^") {
        Some(Token::Xor)
    } else if spells(v, ">") {
        Some(Token::Greater)
    } else if spells(v, ">=") {
        Some(Token::GreaterEq)
    } else if spells(v, "<") {
        Some(Token::Less)
    } else if spells(v, "<=") {
        Some(Token::LessEq)
    } else if spells(v, "==") {
        Some(Token::Eq)
    } else if spells(v, "!=") {
        Some(Token::Neq)
    } else if spells(v, "===") {
        Some(Token::StrictEq)
    } else if spells(v, "!==") {
        Some(Token::StrictNeq)
    } else if spells(v, "def") || spells(v, "define") {
        Some(Token::Define)
    } else if spells(v, "set") {
        Some(Token::Assign)
    } else if spells(v, "cond") {
        Some(Token::Cond)
    } else if spells(v, "match") {
        Some(Token::Match)
    } else if spells(v, "list") {
        Some(Token::List)
    } else if spells(v, "car") {
        Some(Token::Car)
    } else if spells(v, "cdr") {
        Some(Token::Cdr)
    } else if spells(v, "lambda") || spells(v, "\u{3bb}") {
        Some(Token::Lambda)
    } else if spells(v, "require") {
        Some(Token::Require)
    } else if spells(v, "provide") {
        Some(Token::Provide)
    } else if spells(v, "nil") {
        Some(Token::Nil)
    } else if spells(v, "true") {
        Some(Token::Bool(true))
    } else if spells(v, "false") {
        Some(Token::Bool(false))
    } else {
        None
    }
}

proof fn lemma_digits_value_grows(s: Seq<char>, i: int, j: int)
    requires
        0 <= i <= j <= s.len(),
        forall|k: int| 0 <= k < s.len() ==> is_digit(#[trigger] s[k]),
    ensures
        0 <= digits_value(s.subrange(0, i)) <= digits_value(s.subrange(0, j)),
    decreases j,
{
    if j > 0 {
        assert(s.subrange(0, j).drop_last() =~= s.subrange(0, j - 1));
        if i < j {
            lemma_digits_value_grows(s, i, j - 1);
        } else {
            lemma_digits_value_grows(s, i - 1, j - 1);
        }
    }
}

/// The value of `v` if it is a string of decimal digits whose value fits in an `i64`.
fn int_literal(v: &Vec<char>) -> (r: Option<i64>)
    ensures
        r == (if all_digits(v@) && digits_value(v@) <= i64::MAX {
            Some(digits_value(v@) as i64)
        } else {
            None
        }),
{
    let n = v.len();
    if n == 0 {
        return None;
    }
    let mut i: usize = 0;
    while i < n
        invariant
            i <= n,
            n == v@.len(),
            forall|k: int| 0 <= k < i ==> is_digit(#[trigger] v@[k]),
        decreases n - i,
    {
        if !('0' <= v[i] && v[i] <= '9') {
            return None;
        }
        i = i + 1;
    }
    let mut val: i64 = 0;
    let mut i: usize = 0;
    while i < n
        invariant
            i <= n,
            n == v@.len(),
            all_digits(v@),
            val as int == digits_value(v@.subrange(0, i as int)),
            val >= 0,
        decreases n - i,
    {
        let d = (v[i] as u32 - '0' as u32) as i64;
        assert(v@.subrange(0, i + 1).drop_last() =~= v@.subrange(0, i as int));
        assert(0 <= d <= 9);
        if val > (i64::MAX - d) / 10 {
            proof {
                assert(val * 10 + d > i64::MAX) by (nonlinear_arith)
                    requires
                        val > (i64::MAX - d) / 10,
                        0 <= d <= 9,
                ;
                lemma_digits_value_grows(v@, i + 1, n as int);
                assert(v@ =~= v@.subrange(0, n as int));
            }
            return None;
        }
        assert(val * 10 + d <= i64::MAX) by (nonlinear_arith)
            requires
                val <= (i64::MAX - d) / 10,
                0 <= d <= 9,
                val >= 0,
        ;
        val = val * 10 + d;
        i = i + 1;
    }
    assert(v@ =~= v@.subrange(0, n as int));
    Some(val)
}

/// Whether `v[from..to]` is a non-empty run of decimal digits.
pub fn all_digits_in(v: &Vec<char>, from: usize, to: usize) -> (r: bool)
    requires
        from <= to <= v@.len(),
    ensures
        r == all_digits(v@.subrange(from as int, to as int)),
{
    if from == to {
        return false;
    }
    let mut i: usize = from;
    while i < to
        invariant
            from <= i <= to,
            to <= v@.len(),
            forall|k: int| from <= k < i ==> is_digit(#[trigger] v@[k]),
        decreases to - i,
    {
        if !('0' <= v[i] && v[i] <= '9') {
            assert(!is_digit(v@.subrange(from as int, to as int)[i - from]));
            return false;
        }
        i = i + 1;
    }
    assert forall|k: int| 0 <= k < to - from implies is_digit(
        #[trigger] v@.subrange(from as int, to as int)[k],
    ) by {
        assert(is_digit(v@[from + k]));
    }
    true
}

/// Whether `v` is digits, a point, digits.
pub fn float_text(v: &Vec<char>) -> (r: bool)
    ensures
        r == is_float_text(v@),
{
    let n = v.len();
    let mut p: usize = 0;
    while p < n && v[p] != '.'
        invariant
            p <= n,
            n == v@.len(),
            forall|k: int| 0 <= k < p ==> v@[k] != '.',
        decreases n - p,
    {
        p = p + 1;
    }
    if p == n || p == 0 || p + 1 >= n {
        assert(!is_float_text(v@)) by {
            if is_float_text(v@) {
                let q = choose|q: int|
                    0 < q < v@.len() - 1 && v@[q] == '.' && all_digits(v@.subrange(0, q))
                        && all_digits(#[trigger] v@.subrange(q + 1, v@.len() as int));
                if q > p {
                    assert(is_digit(v@.subrange(0, q)[p as int]));
                }
            }
        }
        return false;
    }
    let r = all_digits_in(v, 0, p) && all_digits_in(v, p + 1, n);
    assert(r == is_float_text(v@)) by {
        if is_float_text(v@) {
            let q = choose|q: int|
                0 < q < v@.len() - 1 && v@[q] == '.' && all_digits(v@.subrange(0, q))
                    && all_digits(#[trigger] v@.subrange(q + 1, v@.len() as int));
            if q > p {
                assert(is_digit(v@.subrange(0, q)[p as int]));
            }
            assert(q == p);
        }
    }
    r
}

fn str_text(v: &Vec<char>) -> (r: bool)
    ensures
        r == is_str_text(v@),
{
    let n = v.len();
    if n < 2 || v[0] != '"' || v[n - 1] != '"' {
        return false;
    }
    let mut i: usize = 1;
    while i < n - 1
        invariant
            1 <= i <= n - 1,
            n == v@.len(),
            forall|k: int| 0 < k < i ==> #[trigger] v@[k] != '\n',
        decreases n - 1 - i,
    {
        if v[i] == '\n' {
            return false;
        }
        i = i + 1;
    }
    true
}

/// The token of one atom.
pub fn tokenlize(s: String) -> (t: Token)
    ensures
        token_of(t, s@),
{
    let v = chars_of(s.as_str());
    if let Some(k) = keyword_of(&v) {
        return k;
    }
    if let Some(i) = int_literal(&v) {
        return Token::Int(i);
    }
    if float_text(&v) {
        return Token::Float(s);
    }
    if v.len() == 2 && v[0] == '\\' && v[1] != '\n' {
        return Token::Char(v[1] as u32);
    }
    if str_text(&v) {
        let inner = s.as_str().substring_char(1, v.len() - 1);
        return Token::Str(String::from_str(inner));
    }
    Token::Sym(s)
}

} // verus!
