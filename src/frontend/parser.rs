//! Groups source text into an expression tree.
//!
//! The text is first cut into lexemes: whitespace, commas and backquotes
//! separate them, `;` starts a comment that runs to the end of the line, each of
//! `()[]{}'` is a lexeme of its own, a string literal runs to its closing quote, and any other
//! lexeme is a maximal run of characters that are none of these. Then `(` and `)`
//! group the lexemes into lists; every other lexeme is a leaf.
use crate::frontend::token::{Token, token_of, tokenlize, chars_of};
use crate::chars::{is_white, white_char};
use vstd::prelude::*;
use vstd::string::{StrSliceExecFns, StringExecFns};

verus! {

#[derive(Debug, PartialEq)]
pub enum Parsed {
    Token(Token),
    List(Vec<Parsed>),
}

#[derive(Clone, Copy, Debug, PartialEq, Eq, Structural)]
pub enum ParseError {
    MisMatchedBracket,
    InvalidCharacter,
    /// The text holds no expression.
    Empty,
}

pub open spec fn is_space(c: char) -> bool {
    is_white(c) || c == ','
}

/// Characters that are a lexeme by themselves.
pub open spec fn is_single(c: char) -> bool {
    c == '(' || c == ')' || c == '[' || c == ']' || c == '{' || c == '}' || c == '\''
}

pub open spec fn is_atom_char(c: char) -> bool {
    !is_space(c) && !is_single(c) && c != '"' && c != '`' && c != ';'
}

/// The end of the line that holds position `j`.
pub open spec fn line_end(s: Seq<char>, j: int) -> int
    decreases s.len() - j,
{
    if j >= s.len() || s[j] == '\n' {
        j
    } else {
        line_end(s, j + 1)
    }
}

/// The end of a string literal whose body starts at `j`: after the closing quote,
/// or where the literal cannot go on.
pub open spec fn string_end(s: Seq<char>, j: int) -> int
    decreases s.len() - j,
{
    if j >= s.len() {
        j
    } else if s[j] == '"' {
        j + 1
    } else if s[j] == '\\' {
        if j + 1 < s.len() && s[j + 1] != '\n' {
            string_end(s, j + 2)
        } else {
            j
        }
    } else {
        string_end(s, j + 1)
    }
}

pub open spec fn atom_end(s: Seq<char>, j: int) -> int
    decreases s.len() - j,
{
    if 0 <= j < s.len() && is_atom_char(s[j]) {
        atom_end(s, j + 1)
    } else {
        j
    }
}

pub open spec fn cons_lexeme(x: (int, int), rest: Result<Seq<(int, int)>, ParseError>) -> Result<
    Seq<(int, int)>,
    ParseError,
> {
    match rest {
        Ok(r) => Ok(seq![x] + r),
        Err(e) => Err(e),
    }
}

/// The lexemes of `s` from position `i` on, as spans of positions.
pub open spec fn lex_from(s: Seq<char>, i: int) -> Result<Seq<(int, int)>, ParseError>
    decreases s.len() - i,
{
    if i < 0 || i >= s.len() {
        Ok(Seq::empty())
    } else if is_space(s[i]) || s[i] == '`' {
        lex_from(s, i + 1)
    } else if s[i] == ';' {
        let e = line_end(s, i + 1);
        if i < e <= s.len() {
            lex_from(s, e)
        } else {
            Err(ParseError::InvalidCharacter)
        }
    } else if is_single(s[i]) {
        cons_lexeme((i, i + 1), lex_from(s, i + 1))
    } else if s[i] == '"' {
        let e = string_end(s, i + 1);
        if i < e <= s.len() {
            cons_lexeme((i, e), lex_from(s, e))
        } else {
            Err(ParseError::InvalidCharacter)
        }
    } else if is_atom_char(s[i]) {
        let e = atom_end(s, i + 1);
        if i < e <= s.len() {
            cons_lexeme((i, e), lex_from(s, e))
        } else {
            Err(ParseError::InvalidCharacter)
        }
    } else {
        Err(ParseError::InvalidCharacter)
    }
}

pub open spec fn opens(s: Seq<char>, x: (int, int)) -> bool {
    0 <= x.0 < s.len() && s[x.0] == '('
}

pub open spec fn closes(s: Seq<char>, x: (int, int)) -> bool {
    0 <= x.0 < s.len() && s[x.0] == ')'
}

/// Open brackets minus closing brackets among the first `k` lexemes.
pub open spec fn depth(s: Seq<char>, lx: Seq<(int, int)>, k: int) -> int
    decreases k,
{
    if k <= 0 || k > lx.len() {
        0
    } else {
        depth(s, lx, k - 1) + if opens(s, lx[k - 1]) {
            1int
        } else if closes(s, lx[k - 1]) {
            -1int
        } else {
            0int
        }
    }
}

/// No closing bracket without an open one before it, and none left open.
pub open spec fn balanced(s: Seq<char>, lx: Seq<(int, int)>) -> bool {
    &&& forall|k: int| 0 <= k <= lx.len() ==> #[trigger] depth(s, lx, k) >= 0
    &&& depth(s, lx, lx.len() as int) == 0
}

/// Where the lexemes that `t` is made of end, if they stand in `lx` from `i` on.
pub open spec fn shows(t: Parsed, s: Seq<char>, lx: Seq<(int, int)>, i: int) -> Option<int>
    decreases t, 0int,
{
    if i < 0 || i >= lx.len() {
        None
    } else {
        match t {
            Parsed::Token(tok) => if !opens(s, lx[i]) && !closes(s, lx[i]) && token_of(
                tok,
                s.subrange(lx[i].0, lx[i].1),
            ) {
                Some(i + 1)
            } else {
                None
            },
            Parsed::List(v) => if opens(s, lx[i]) {
                match shows_all(v@, s, lx, i + 1) {
                    Some(k) => if 0 <= k < lx.len() && closes(s, lx[k]) {
                        Some(k + 1)
                    } else {
                        None
                    },
                    None => None,
                }
            } else {
                None
            },
        }
    }
}

/// Where the lexemes of the trees `cs`, one after another, end.
pub open spec fn shows_all(cs: Seq<Parsed>, s: Seq<char>, lx: Seq<(int, int)>, i: int) -> Option<
    int,
>
    decreases cs, 1int,
{
    if cs.len() == 0 {
        Some(i)
    } else {
        match shows_all(cs.drop_last(), s, lx, i) {
            Some(k) => shows(cs.last(), s, lx, k),
            None => None,
        }
    }
}

/// Each span lies inside the text and is not empty.
pub open spec fn spans_ok(s: Seq<char>, lx: Seq<(int, int)>) -> bool {
    forall|k: int| 0 <= k < lx.len() ==> 0 <= #[trigger] lx[k].0 < lx[k].1 <= s.len()
}

pub open spec fn spans(v: Seq<(usize, usize)>) -> Seq<(int, int)> {
    v.map_values(|p: (usize, usize)| (p.0 as int, p.1 as int))
}

pub open spec fn after(a: Seq<(int, int)>, rest: Result<Seq<(int, int)>, ParseError>) -> Result<
    Seq<(int, int)>,
    ParseError,
> {
    match rest {
        Ok(r) => Ok(a + r),
        Err(e) => Err(e),
    }
}

proof fn lemma_ends_bounds(s: Seq<char>, j: int)
    requires
        0 <= j <= s.len(),
    ensures
        j <= line_end(s, j) <= s.len(),
        j <= string_end(s, j) <= s.len(),
        j <= atom_end(s, j) <= s.len(),
    decreases s.len() - j,
{
    if j < s.len() {
        lemma_ends_bounds(s, j + 1);
        if j + 2 <= s.len() {
            lemma_ends_bounds(s, j + 2);
        }
    }
}

/// Every text can be cut into lexemes: a backquote or any other character that
/// starts no lexeme is a separator.
pub proof fn lemma_lex_total(s: Seq<char>, i: int)
    requires
        0 <= i,
    ensures
        lex_from(s, i) is Ok,
    decreases s.len() - i,
{
    if i < s.len() {
        lemma_ends_bounds(s, i + 1);
        if is_space(s[i]) || s[i] == '`' || is_single(s[i]) {
            lemma_lex_total(s, i + 1);
        } else if s[i] == ';' {
            lemma_lex_total(s, line_end(s, i + 1));
        } else if s[i] == '"' {
            lemma_lex_total(s, string_end(s, i + 1));
        } else {
            lemma_lex_total(s, atom_end(s, i + 1));
        }
    }
}

proof fn lemma_lex_spans(s: Seq<char>, i: int)
    requires
        lex_from(s, i) is Ok,
        0 <= i,
    ensures
        spans_ok(s, lex_from(s, i)->Ok_0),
        forall|k: int| 0 <= k < lex_from(s, i)->Ok_0.len() ==> i <= #[trigger] lex_from(s, i)->Ok_0[k].0,
    decreases s.len() - i,
{
    if i >= s.len() {
    } else if is_space(s[i]) || s[i] == '`' {
        lemma_lex_spans(s, i + 1);
    } else if s[i] == ';' {
        lemma_lex_spans(s, line_end(s, i + 1));
    } else {
        let e = if is_single(s[i]) {
            i + 1
        } else if s[i] == '"' {
            string_end(s, i + 1)
        } else {
            atom_end(s, i + 1)
        };
        lemma_lex_spans(s, e);
        let r = lex_from(s, i)->Ok_0;
        let rest = lex_from(s, e)->Ok_0;
        assert(r == seq![(i, e)] + rest);
        assert forall|k: int| 0 <= k < r.len() implies 0 <= #[trigger] r[k].0 < r[k].1 <= s.len()
            && i <= r[k].0 by {
            if k > 0 {
                assert(r[k] == rest[k - 1]);
            }
        }
    }
}

/// The end of the line that holds position `j`.
pub fn scan_line_end(v: &Vec<char>, j: usize) -> (r: usize)
    requires
        j <= v@.len(),
    ensures
        r == line_end(v@, j as int),
        j <= r <= v@.len(),
{
    let mut k = j;
    while k < v.len() && v[k] != '\n'
        invariant
            j <= k <= v@.len(),
            line_end(v@, j as int) == line_end(v@, k as int),
        decreases v@.len() - k,
    {
        k = k + 1;
    }
    k
}

fn scan_string_end(v: &Vec<char>, j: usize) -> (r: usize)
    requires
        j <= v@.len(),
    ensures
        r == string_end(v@, j as int),
        r <= v@.len(),
{
    let n = v.len();
    let mut k = j;
    loop
        invariant
            k <= n,
            n == v@.len(),
            string_end(v@, j as int) == string_end(v@, k as int),
        decreases n - k,
    {
        if k >= n {
            return k;
        }
        if v[k] == '"' {
            return k + 1;
        }
        if v[k] == '\\' {
            if k + 1 < n && v[k + 1] != '\n' {
                k = k + 2;
            } else {
                return k;
            }
        } else {
            k = k + 1;
        }
    }
}

fn is_space_char(c: char) -> (r: bool)
    ensures
        r == is_space(c),
{
    white_char(c) || c == ','
}

fn is_single_char(c: char) -> (r: bool)
    ensures
        r == is_single(c),
{
    c == '(' || c == ')' || c == '[' || c == ']' || c == '{' || c == '}' || c == '\''
}

fn is_atom_character(c: char) -> (r: bool)
    ensures
        r == is_atom_char(c),
{
    !is_space_char(c) && !is_single_char(c) && c != '"' && c != '`' && c != ';'
}

fn scan_atom_end(v: &Vec<char>, j: usize) -> (r: usize)
    requires
        j <= v@.len(),
    ensures
        r == atom_end(v@, j as int),
        j <= r <= v@.len(),
{
    let mut k = j;
    while k < v.len() && is_atom_character(v[k])
        invariant
            j <= k <= v@.len(),
            atom_end(v@, j as int) == atom_end(v@, k as int),
        decreases v@.len() - k,
    {
        k = k + 1;
    }
    k
}

/// Cuts the text into lexemes, as spans of character positions.
pub fn lex(v: &Vec<char>) -> (r: Result<Vec<(usize, usize)>, ParseError>)
    ensures
        match r {
            Ok(x) => lex_from(v@, 0) == Ok::<Seq<(int, int)>, ParseError>(spans(x@)),
            Err(e) => lex_from(v@, 0) == Err::<Seq<(int, int)>, ParseError>(e),
        },
{
    let n = v.len();
    let mut acc: Vec<(usize, usize)> = Vec::new();
    let mut i: usize = 0;
    assert(spans(acc@) =~= Seq::<(int, int)>::empty());
    assert(after(spans(acc@), lex_from(v@, 0)) =~= lex_from(v@, 0)) by {
        match lex_from(v@, 0) {
            Ok(r) => {
                assert(Seq::<(int, int)>::empty() + r =~= r);
            },
            Err(_) => {},
        }
    }
    while i < n
        invariant
            i <= n,
            n == v@.len(),
            lex_from(v@, 0) == after(spans(acc@), lex_from(v@, i as int)),
        decreases n - i,
    {
        let c = v[i];
        if is_space_char(c) || c == '`' {
            i = i + 1;
        } else if c == ';' {
            let e = scan_line_end(v, i + 1);
            i = e;
        } else {
            let e = if is_single_char(c) {
                i + 1
            } else if c == '"' {
                scan_string_end(v, i + 1)
            } else if is_atom_character(c) {
                scan_atom_end(v, i + 1)
            } else {
                return Err(ParseError::InvalidCharacter);
            };
            if !(i < e && e <= n) {
                return Err(ParseError::InvalidCharacter);
            }
            let ghost old_acc = spans(acc@);
            acc.push((i, e));
            proof {
                assert(spans(acc@) =~= old_acc.push((i as int, e as int)));
                match lex_from(v@, e as int) {
                    Ok(r) => {
                        assert(old_acc + (seq![(i as int, e as int)] + r) =~= old_acc.push(
                            (i as int, e as int),
                        ) + r);
                    },
                    Err(_) => {},
                }
            }
            i = e;
        }
    }
    proof {
        match lex_from(v@, 0) {
            Ok(r) => {
                assert(spans(acc@) + Seq::<(int, int)>::empty() =~= spans(acc@));
            },
            Err(_) => {},
        }
    }
    Ok(acc)
}

fn check_balanced(v: &Vec<char>, lx: &Vec<(usize, usize)>) -> (r: bool)
    requires
        spans_ok(v@, spans(lx@)),
    ensures
        r == balanced(v@, spans(lx@)),
{
    let ghost sp = spans(lx@);
    let n = lx.len();
    let mut d: usize = 0;
    let mut k: usize = 0;
    while k < n
        invariant
            k <= n,
            n == lx@.len(),
            sp == spans(lx@),
            spans_ok(v@, sp),
            d as int == depth(v@, sp, k as int),
            d <= k,
            forall|m: int| 0 <= m <= k ==> #[trigger] depth(v@, sp, m) >= 0,
        decreases n - k,
    {
        let (a, _) = lx[k];
        assert(sp[k as int] == (a as int, lx@[k as int].1 as int));
        let c = v[a];
        if c == '(' {
            d = d + 1;
        } else if c == ')' {
            if d == 0 {
                assert(depth(v@, sp, k + 1) < 0);
                return false;
            }
            d = d - 1;
        }
        k = k + 1;
    }
    d == 0
}

proof fn lemma_shows_all_push(cs: Seq<Parsed>, c: Parsed, s: Seq<char>, lx: Seq<(int, int)>, i: int)
    ensures
        shows_all(cs.push(c), s, lx, i) == match shows_all(cs, s, lx, i) {
            Some(k) => shows(c, s, lx, k),
            None => None,
        },
{
    assert(cs.push(c).drop_last() =~= cs);
}

fn parse_form(src: &String, v: &Vec<char>, lx: &Vec<(usize, usize)>, i: usize) -> (r: Result<
    (Parsed, usize),
    ParseError,
>)
    requires
        v@ == src@,
        i < lx@.len(),
        spans_ok(v@, spans(lx@)),
    ensures
        r is Ok ==> i < r->Ok_0.1 <= lx@.len() && shows(r->Ok_0.0, v@, spans(lx@), i as int)
            == Some(r->Ok_0.1 as int),
        balanced(v@, spans(lx@)) && !closes(v@, spans(lx@)[i as int]) ==> r is Ok && depth(
            v@,
            spans(lx@),
            r->Ok_0.1 as int,
        ) == depth(v@, spans(lx@), i as int),
    decreases lx@.len() - i,
{
    let ghost s = v@;
    let ghost sp = spans(lx@);
    let n = lx.len();
    let (a, b) = lx[i];
    assert(sp[i as int] == (a as int, b as int));
    if v[a] == '(' {
        let mut children: Vec<Parsed> = Vec::new();
        let mut j = i + 1;
        assert(depth(s, sp, i + 1) == depth(s, sp, i as int) + 1);
        assert forall|k: int| 0 <= k < n implies #[trigger] lx@[k].0 < v@.len() by {
            assert(sp[k] == (lx@[k].0 as int, lx@[k].1 as int));
        }
        while j < n && v[lx[j].0] != ')'
            invariant
                forall|k: int| 0 <= k < n ==> #[trigger] lx@[k].0 < v@.len(),
                i < j <= n,
                n == lx@.len(),
                s == v@,
                sp == spans(lx@),
                spans_ok(s, sp),
                v@ == src@,
                shows_all(children@, s, sp, i + 1) == Some(j as int),
                balanced(s, sp) ==> depth(s, sp, j as int) == depth(s, sp, i as int) + 1,
            decreases n - j,
        {
            assert(sp[j as int].0 == lx@[j as int].0);
            let (c, k) = parse_form(src, v, lx, j)?;
            proof {
                lemma_shows_all_push(children@, c, s, sp, i + 1);
            }
            children.push(c);
            j = k;
        }
        if j >= n {
            proof {
                if balanced(s, sp) {
                    assert(depth(s, sp, i as int) >= 0);
                }
            }
            return Err(ParseError::MisMatchedBracket);
        }
        assert(sp[j as int].0 == lx@[j as int].0);
        assert(depth(s, sp, j + 1) == depth(s, sp, j as int) - 1);
        let t = Parsed::List(children);
        assert(shows(t, s, sp, i as int) == Some(j + 1));
        Ok((t, j + 1))
    } else if v[a] == ')' {
        Err(ParseError::MisMatchedBracket)
    } else {
        let text = String::from_str(src.as_str().substring_char(a, b));
        let tok = tokenlize(text);
        assert(depth(s, sp, i + 1) == depth(s, sp, i as int));
        Ok((Parsed::Token(tok), i + 1))
    }
}

/// Parses the first expression of `input`.
///
/// Fails with `MisMatchedBracket` where its brackets do not balance, and with
/// `Empty` where it holds no lexeme. Every text can be cut into lexemes, so
/// `InvalidCharacter` does not come.
pub fn parse(input: &String) -> (r: Result<Parsed, ParseError>)
    ensures
        lex_from(input@, 0) is Ok,
        match lex_from(input@, 0) {
            Err(e) => r == Err::<Parsed, ParseError>(e),
            Ok(lx) => if !balanced(input@, lx) {
                r == Err::<Parsed, ParseError>(ParseError::MisMatchedBracket)
            } else if lx.len() == 0 {
                r == Err::<Parsed, ParseError>(ParseError::Empty)
            } else {
                r is Ok && shows(r->Ok_0, input@, lx, 0) is Some
            },
        },
{
    let v = chars_of(input.as_str());
    proof {
        lemma_lex_total(input@, 0);
    }
    let lx = lex(&v)?;
    proof {
        lemma_lex_spans(v@, 0);
    }
    if !check_balanced(&v, &lx) {
        return Err(ParseError::MisMatchedBracket);
    }
    if lx.len() == 0 {
        return Err(ParseError::Empty);
    }
    proof {
        let sp = spans(lx@);
        assert(depth(v@, sp, 1) >= 0);
        assert(depth(v@, sp, 1) == depth(v@, sp, 0) + if opens(v@, sp[0]) {
            1int
        } else if closes(v@, sp[0]) {
            -1int
        } else {
            0int
        });
    }
    let (t, _) = parse_form(input, &v, &lx, 0)?;
    Ok(t)
}

} // verus!
