use vstd::prelude::*;
use crate::tree::{BinOp, Modifier, RollError, Expr, Tree};
use crate::grammar::{at, skip_ws, digits_end, digits_value, is_digit, integer, modifier, dice_op, faces,
    atom, rhs, factor, term_tail, term, expr_tail, expr, notation};

verus! {

/// An exec parse result `r` agrees with the rule's result `sr`, and an
/// accepted prefix ends after `lo` and within the text.
pub open spec fn agrees(r: Result<(Expr, usize), usize>, sr: Result<(Tree, int), int>, lo: int, n: int) -> bool {
    match r {
        Ok((e, q)) => sr == Ok::<(Tree, int), int>((e.tree(), q as int)) && lo < q <= n,
        Err(x) => sr == Err::<(Tree, int), int>(x as int),
    }
}

fn char_at(s: &str, n: usize, p: usize, c: char) -> (r: bool)
    requires
        n == s@.len(),
    ensures
        r == at(s@, p as int, c),
{
    p < n && s.get_char(p) == c
}

fn skip_spaces(s: &str, n: usize, p: usize) -> (a: usize)
    requires
        n == s@.len(),
        p <= n,
    ensures
        a as int == skip_ws(s@, p as int),
        p <= a <= n,
{
    let mut i = p;
    while i < n
        invariant
            n == s@.len(),
            p <= i <= n,
            skip_ws(s@, p as int) == skip_ws(s@, i as int),
        decreases n - i,
    {
        let c = s.get_char(i);
        if !(c == ' ' || c == '\t' || c == '\n' || c == '\r') {
            return i;
        }
        i = i + 1;
    }
    i
}

fn end_of_digits(s: &str, n: usize, p: usize) -> (e: usize)
    requires
        n == s@.len(),
        p <= n,
    ensures
        e as int == digits_end(s@, p as int),
        p <= e <= n,
        forall|j: int| p <= j < e ==> is_digit(#[trigger] s@[j]),
{
    let mut i = p;
    while i < n
        invariant
            n == s@.len(),
            p <= i <= n,
            digits_end(s@, p as int) == digits_end(s@, i as int),
            forall|j: int| p <= j < i ==> is_digit(#[trigger] s@[j]),
        decreases n - i,
    {
        let c = s.get_char(i);
        if !('0' <= c && c <= '9') {
            return i;
        }
        i = i + 1;
    }
    i
}

const MAGNITUDE: u128 = 0x8000_0000_0000_0000;

fn parse_integer(s: &str, n: usize, p: usize) -> (r: Result<(i64, usize), usize>)
    requires
        n == s@.len(),
        p <= n,
    ensures
        match r {
            Ok((v, q)) => integer(s@, p as int) == Ok::<(i64, int), int>((v, q as int)) && p < q <= n,
            Err(x) => integer(s@, p as int) == Err::<(i64, int), int>(x as int),
        },
{
    let a = skip_spaces(s, n, p);
    let neg = char_at(s, n, a, '-');
    let d = if neg {
        a + 1
    } else {
        a
    };
    let e = end_of_digits(s, n, d);
    if e == d {
        return Err(a);
    }
    if s.get_char(d) == '0' && e > d + 1 {
        return Err(d);
    }
    let mut acc: u128 = 0;
    let mut big = false;
    let mut i = d;
    while i < e
        invariant
            n == s@.len(),
            d <= i <= e <= n,
            forall|j: int| d <= j < e ==> is_digit(#[trigger] s@[j]),
            !big ==> acc as int == digits_value(s@, d as int, i as int) && acc <= MAGNITUDE,
            big ==> digits_value(s@, d as int, i as int) > MAGNITUDE,
        decreases e - i,
    {
        let c = s.get_char(i);
        assert(is_digit(s@[i as int]));
        let dv = (c as u32 - '0' as u32) as u128;
        if !big {
            let nv = acc * 10 + dv;
            if nv > MAGNITUDE {
                big = true;
            } else {
                acc = nv;
            }
        }
        i = i + 1;
    }
    if big {
        return Err(a);
    }
    let v: i128 = if neg {
        -(acc as i128)
    } else {
        acc as i128
    };
    if i64::MIN as i128 <= v && v <= i64::MAX as i128 {
        Ok((v as i64, e))
    } else {
        Err(a)
    }
}

fn parse_modifier(s: &str, n: usize, p: usize) -> (r: Result<(Modifier, usize), usize>)
    requires
        n == s@.len(),
        p <= n,
    ensures
        match r {
            Ok((m, q)) => modifier(s@, p as int) == Ok::<(Modifier, int), int>((m, q as int)) && p <= q <= n,
            Err(x) => modifier(s@, p as int) == Err::<(Modifier, int), int>(x as int),
        },
{
    let a = skip_spaces(s, n, p);
    if char_at(s, n, a, 'b') && char_at(s, n, a + 1, 'e') && char_at(s, n, a + 2, 's')
        && char_at(s, n, a + 3, 't') {
        match parse_integer(s, n, a + 4) {
            Ok((k, q)) => Ok((Modifier::Best(k), q)),
            Err(x) => Err(x),
        }
    } else if char_at(s, n, a, 'w') && char_at(s, n, a + 1, 'o') && char_at(s, n, a + 2, 'r')
        && char_at(s, n, a + 3, 's') && char_at(s, n, a + 4, 't') {
        match parse_integer(s, n, a + 5) {
            Ok((k, q)) => Ok((Modifier::Worst(k), q)),
            Err(x) => Err(x),
        }
    } else if char_at(s, n, a, 'a') && char_at(s, n, a + 1, 'd') && char_at(s, n, a + 2, 'v') {
        Ok((Modifier::Advantage, a + 3))
    } else if char_at(s, n, a, 'd') && char_at(s, n, a + 1, 'i') && char_at(s, n, a + 2, 's') {
        Ok((Modifier::Disadvantage, a + 3))
    } else {
        Ok((Modifier::All, p))
    }
}

fn is_dice_op(s: &str, n: usize, a: usize) -> (r: bool)
    requires
        n == s@.len(),
    ensures
        r == dice_op(s@, a as int),
{
    char_at(s, n, a, 'D') || (char_at(s, n, a, 'd') && !(a < n && char_at(s, n, a + 1, 'i')
        && char_at(s, n, a + 2, 's')))
}

fn parse_faces(s: &str, n: usize, p: usize) -> (r: Result<(Vec<i64>, usize), usize>)
    requires
        n == s@.len(),
        p <= n,
    ensures
        match r {
            Ok((f, q)) => faces(s@, p as int, Seq::empty()) == Ok::<(Seq<i64>, int), int>((f@, q as int)) && p < q <= n,
            Err(x) => faces(s@, p as int, Seq::empty()) == Err::<(Seq<i64>, int), int>(x as int),
        },
{
    let mut acc: Vec<i64> = Vec::new();
    let mut pos = p;
    loop
        invariant
            n == s@.len(),
            p <= pos <= n,
            faces(s@, p as int, Seq::empty()) == faces(s@, pos as int, acc@),
        decreases n - pos,
    {
        match parse_integer(s, n, pos) {
            Err(x) => return Err(x),
            Ok((v, q)) => {
                let a = skip_spaces(s, n, q);
                if char_at(s, n, a, ',') {
                    acc.push(v);
                    pos = a + 1;
                } else if char_at(s, n, a, ']') {
                    acc.push(v);
                    return Ok((acc, a + 1));
                } else {
                    return Err(a);
                }
            },
        }
    }
}

fn parse_atom(s: &str, n: usize, p: usize) -> (r: Result<(Expr, usize), usize>)
    requires
        n == s@.len(),
        p <= n,
    ensures
        agrees(r, atom(s@, p as int), p as int, n as int),
    decreases s@.len() - p, 0int,
{
    let a = skip_spaces(s, n, p);
    if char_at(s, n, a, '(') {
        match parse_expr(s, n, a + 1) {
            Err(x) => Err(x),
            Ok((e, q)) => {
                let b = skip_spaces(s, n, q);
                if char_at(s, n, b, ')') {
                    Ok((Expr::Group(Box::new(e)), b + 1))
                } else {
                    Err(b)
                }
            },
        }
    } else {
        match parse_integer(s, n, p) {
            Err(x) => Err(x),
            Ok((v, q)) => Ok((Expr::Number(v), q)),
        }
    }
}

fn parse_rhs(s: &str, n: usize, count: Expr, p: usize) -> (r: Result<(Expr, usize), usize>)
    requires
        n == s@.len(),
        p <= n,
    ensures
        agrees(r, rhs(s@, count.tree(), p as int), p as int, n as int),
    decreases s@.len() - p, 1int,
{
    let a = skip_spaces(s, n, p);
    if char_at(s, n, a, '[') {
        match parse_faces(s, n, a + 1) {
            Err(x) => Err(x),
            Ok((f, q)) => match parse_modifier(s, n, q) {
                Err(x) => Err(x),
                Ok((m, r)) => Ok((Expr::Custom(Box::new(count), f, m), r)),
            },
        }
    } else {
        match parse_atom(s, n, p) {
            Err(x) => Err(x),
            Ok((b, q)) => {
                let d = skip_spaces(s, n, q);
                if is_dice_op(s, n, d) {
                    match parse_rhs(s, n, b, d + 1) {
                        Err(x) => Err(x),
                        Ok((inner, r)) => Ok(
                            (Expr::Standard(Box::new(count), Box::new(inner), Modifier::All), r),
                        ),
                    }
                } else {
                    match parse_modifier(s, n, q) {
                        Err(x) => Err(x),
                        Ok((m, r)) => Ok((Expr::Standard(Box::new(count), Box::new(b), m), r)),
                    }
                }
            },
        }
    }
}

fn parse_factor(s: &str, n: usize, p: usize) -> (r: Result<(Expr, usize), usize>)
    requires
        n == s@.len(),
        p <= n,
    ensures
        agrees(r, factor(s@, p as int), p as int, n as int),
    decreases s@.len() - p, 2int,
{
    match parse_atom(s, n, p) {
        Err(x) => Err(x),
        Ok((c, q)) => {
            let d = skip_spaces(s, n, q);
            if is_dice_op(s, n, d) {
                parse_rhs(s, n, c, d + 1)
            } else {
                Ok((c, q))
            }
        },
    }
}

fn parse_term_tail(s: &str, n: usize, acc: Expr, q: usize) -> (r: Result<(Expr, usize), usize>)
    requires
        n == s@.len(),
        q <= n,
    ensures
        agrees(r, term_tail(s@, acc.tree(), q as int), q - 1, n as int),
    decreases s@.len() - q, 3int,
{
    let a = skip_spaces(s, n, q);
    let op = if char_at(s, n, a, '*') {
        BinOp::Times
    } else if char_at(s, n, a, '/') {
        BinOp::Slash
    } else {
        return Ok((acc, q));
    };
    match parse_factor(s, n, a + 1) {
        Err(x) => Err(x),
        Ok((f, r)) => parse_term_tail(s, n, Expr::Binary(op, Box::new(acc), Box::new(f)), r),
    }
}

fn parse_term(s: &str, n: usize, p: usize) -> (r: Result<(Expr, usize), usize>)
    requires
        n == s@.len(),
        p <= n,
    ensures
        agrees(r, term(s@, p as int), p as int, n as int),
    decreases s@.len() - p, 4int,
{
    match parse_factor(s, n, p) {
        Err(x) => Err(x),
        Ok((f, q)) => parse_term_tail(s, n, f, q),
    }
}

fn parse_expr_tail(s: &str, n: usize, acc: Expr, q: usize) -> (r: Result<(Expr, usize), usize>)
    requires
        n == s@.len(),
        q <= n,
    ensures
        agrees(r, expr_tail(s@, acc.tree(), q as int), q - 1, n as int),
    decreases s@.len() - q, 5int,
{
    let a = skip_spaces(s, n, q);
    let op = if char_at(s, n, a, '+') {
        BinOp::Plus
    } else if char_at(s, n, a, '-') {
        BinOp::Minus
    } else {
        return Ok((acc, q));
    };
    match parse_term(s, n, a + 1) {
        Err(x) => Err(x),
        Ok((t, r)) => parse_expr_tail(s, n, Expr::Binary(op, Box::new(acc), Box::new(t)), r),
    }
}

fn parse_expr(s: &str, n: usize, p: usize) -> (r: Result<(Expr, usize), usize>)
    requires
        n == s@.len(),
        p <= n,
    ensures
        agrees(r, expr(s@, p as int), p as int, n as int),
    decreases s@.len() - p, 6int,
{
    match parse_term(s, n, p) {
        Err(x) => Err(x),
        Ok((t, q)) => parse_expr_tail(s, n, t, q),
    }
}

/// `r` is what the grammar gives for `s`: the tree, or the syntax error at
/// the position where recognition stopped.
pub open spec fn parsed(s: Seq<char>, r: Result<Expr, RollError>) -> bool {
    match notation(s) {
        Ok(t) => r is Ok && r->Ok_0.tree() == t,
        Err(x) => r == Err::<Expr, RollError>(RollError::Syntax(x as usize)),
    }
}

/// The recogniser of dice notation.
pub struct RollParser;

impl RollParser {
    /// Parses dice notation. The tree is exactly the one the grammar gives; a
    /// text outside the grammar is a syntax error at the position where
    /// recognition stopped.
    pub fn parse(s: &str) -> (r: Result<Expr, RollError>)
        ensures
            parsed(s@, r),
    {
        let n = s.unicode_len();
        match parse_expr(s, n, 0) {
            Err(x) => Err(RollError::Syntax(x)),
            Ok((t, q)) => {
                let a = skip_spaces(s, n, q);
                if a == n {
                    Ok(t)
                } else {
                    Err(RollError::Syntax(a))
                }
            },
        }
    }
}

} // verus!
