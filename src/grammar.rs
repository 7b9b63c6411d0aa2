use vstd::prelude::*;
use crate::tree::{BinOp, Modifier, Tree};

verus! {

// The notation, position by position. Each rule reads from position `p` of
// `s` and gives the tree it recognised with the position after it, or the
// position where recognition failed. Whitespace may stand before any token.
//
//   expr     := term (("+" | "-") term)*
//   term     := factor (("*" | "/") factor)*
//   factor   := atom ( ("d" | "D") rhs )?
//   rhs      := "[" integer ("," integer)* "]" modifier?
//             | atom ( ("d" | "D") rhs | modifier? )
//   atom     := "(" expr ")" | integer
//   modifier := "best" integer | "worst" integer | "adv" | "dis"
//   integer  := "-"? digit+            (no leading zero but for 0 itself)
//
// A chain `a d b d c` reads as `a d (b d c)`, and a modifier belongs to the
// roll just before it. The conditions on positions in the rules below always
// hold; they make each recursion visibly well founded.

pub open spec fn is_space(c: char) -> bool {
    c == ' ' || c == '\t' || c == '\n' || c == '\r'
}

pub open spec fn is_digit(c: char) -> bool {
    '0' <= c && c <= '9'
}

pub open spec fn digit_value(c: char) -> int {
    (c as u32) - ('0' as u32)
}

pub open spec fn at(s: Seq<char>, p: int, c: char) -> bool {
    0 <= p < s.len() && s[p] == c
}

/// The first position at or after `p` that holds no whitespace.
pub open spec fn skip_ws(s: Seq<char>, p: int) -> int
    decreases s.len() - p,
{
    if 0 <= p < s.len() && is_space(s[p]) {
        skip_ws(s, p + 1)
    } else {
        p
    }
}

/// The first position at or after `p` that holds no digit.
pub open spec fn digits_end(s: Seq<char>, p: int) -> int
    decreases s.len() - p,
{
    if 0 <= p < s.len() && is_digit(s[p]) {
        digits_end(s, p + 1)
    } else {
        p
    }
}

/// The decimal value of the digits in `s[a..b]`.
pub open spec fn digits_value(s: Seq<char>, a: int, b: int) -> int
    decreases b - a,
{
    if b <= a {
        0
    } else {
        10 * digits_value(s, a, b - 1) + digit_value(s[b - 1])
    }
}

pub open spec fn fits_i64(v: int) -> bool {
    i64::MIN <= v <= i64::MAX
}

pub open spec fn integer(s: Seq<char>, p: int) -> Result<(i64, int), int> {
    let a = skip_ws(s, p);
    let neg = at(s, a, '-');
    let d = if neg {
        a + 1
    } else {
        a
    };
    let e = digits_end(s, d);
    if e == d {
        Err(a)
    } else if s[d] == '0' && e > d + 1 {
        Err(d)
    } else {
        let v = if neg {
            -digits_value(s, d, e)
        } else {
            digits_value(s, d, e)
        };
        if fits_i64(v) {
            Ok((v as i64, e))
        } else {
            Err(a)
        }
    }
}

pub open spec fn word3(s: Seq<char>, p: int, a: char, b: char, c: char) -> bool {
    at(s, p, a) && at(s, p + 1, b) && at(s, p + 2, c)
}

pub open spec fn modifier(s: Seq<char>, p: int) -> Result<(Modifier, int), int> {
    let a = skip_ws(s, p);
    if word3(s, a, 'b', 'e', 's') && at(s, a + 3, 't') {
        match integer(s, a + 4) {
            Ok((k, q)) => Ok((Modifier::Best(k), q)),
            Err(x) => Err(x),
        }
    } else if word3(s, a, 'w', 'o', 'r') && at(s, a + 3, 's') && at(s, a + 4, 't') {
        match integer(s, a + 5) {
            Ok((k, q)) => Ok((Modifier::Worst(k), q)),
            Err(x) => Err(x),
        }
    } else if word3(s, a, 'a', 'd', 'v') {
        Ok((Modifier::Advantage, a + 3))
    } else if word3(s, a, 'd', 'i', 's') {
        Ok((Modifier::Disadvantage, a + 3))
    } else {
        Ok((Modifier::All, p))
    }
}

/// A dice operator at `a`, as opposed to the modifier `dis`.
pub open spec fn dice_op(s: Seq<char>, a: int) -> bool {
    at(s, a, 'D') || (at(s, a, 'd') && !(at(s, a + 1, 'i') && at(s, a + 2, 's')))
}

/// The faces of a custom die after `acc`, up to and past the closing `]`.
pub open spec fn faces(s: Seq<char>, p: int, acc: Seq<i64>) -> Result<(Seq<i64>, int), int>
    decreases s.len() - p,
{
    match integer(s, p) {
        Err(x) => Err(x),
        Ok((v, q)) => {
            let a = skip_ws(s, q);
            if at(s, a, ',') && p < q && q <= a {
                faces(s, a + 1, acc.push(v))
            } else if at(s, a, ']') {
                Ok((acc.push(v), a + 1))
            } else {
                Err(a)
            }
        },
    }
}

pub open spec fn atom(s: Seq<char>, p: int) -> Result<(Tree, int), int>
    decreases s.len() - p, 0int,
{
    let a = skip_ws(s, p);
    if at(s, a, '(') {
        if p <= a {
            match expr(s, a + 1) {
                Err(x) => Err(x),
                Ok((e, q)) => {
                    let b = skip_ws(s, q);
                    if at(s, b, ')') {
                        Ok((Tree::Group(Box::new(e)), b + 1))
                    } else {
                        Err(b)
                    }
                },
            }
        } else {
            Err(a)
        }
    } else {
        match integer(s, p) {
            Err(x) => Err(x),
            Ok((v, q)) => Ok((Tree::Number(v), q)),
        }
    }
}

/// What follows the dice operator of a roll of `count` dice.
pub open spec fn rhs(s: Seq<char>, count: Tree, p: int) -> Result<(Tree, int), int>
    decreases s.len() - p, 1int,
{
    let a = skip_ws(s, p);
    if at(s, a, '[') {
        match faces(s, a + 1, Seq::empty()) {
            Err(x) => Err(x),
            Ok((f, q)) => match modifier(s, q) {
                Err(x) => Err(x),
                Ok((m, r)) => Ok((Tree::Custom(Box::new(count), f, m), r)),
            },
        }
    } else {
        match atom(s, p) {
            Err(x) => Err(x),
            Ok((b, q)) => {
                let d = skip_ws(s, q);
                if dice_op(s, d) && p < q && q <= d {
                    match rhs(s, b, d + 1) {
                        Err(x) => Err(x),
                        Ok((inner, r)) => Ok(
                            (Tree::Standard(Box::new(count), Box::new(inner), Modifier::All), r),
                        ),
                    }
                } else {
                    match modifier(s, q) {
                        Err(x) => Err(x),
                        Ok((m, r)) => Ok((Tree::Standard(Box::new(count), Box::new(b), m), r)),
                    }
                }
            },
        }
    }
}

pub open spec fn factor(s: Seq<char>, p: int) -> Result<(Tree, int), int>
    decreases s.len() - p, 2int,
{
    match atom(s, p) {
        Err(x) => Err(x),
        Ok((c, q)) => {
            let d = skip_ws(s, q);
            if dice_op(s, d) && p < q && q <= d {
                rhs(s, c, d + 1)
            } else {
                Ok((c, q))
            }
        },
    }
}

pub open spec fn mul_op(s: Seq<char>, a: int) -> Option<BinOp> {
    if at(s, a, '*') {
        Some(BinOp::Times)
    } else if at(s, a, '/') {
        Some(BinOp::Slash)
    } else {
        None
    }
}

pub open spec fn add_op(s: Seq<char>, a: int) -> Option<BinOp> {
    if at(s, a, '+') {
        Some(BinOp::Plus)
    } else if at(s, a, '-') {
        Some(BinOp::Minus)
    } else {
        None
    }
}

/// The factors that follow `acc` in a term, folded to the left.
pub open spec fn term_tail(s: Seq<char>, acc: Tree, q: int) -> Result<(Tree, int), int>
    decreases s.len() - q, 3int,
{
    let a = skip_ws(s, q);
    match mul_op(s, a) {
        Some(op) => if q <= a {
            match factor(s, a + 1) {
                Err(x) => Err(x),
                Ok((f, r)) => {
                    let t = Tree::Binary(op, Box::new(acc), Box::new(f));
                    if q < r <= s.len() {
                        term_tail(s, t, r)
                    } else {
                        Ok((t, r))
                    }
                },
            }
        } else {
            Err(a)
        },
        None => Ok((acc, q)),
    }
}

pub open spec fn term(s: Seq<char>, p: int) -> Result<(Tree, int), int>
    decreases s.len() - p, 4int,
{
    match factor(s, p) {
        Err(x) => Err(x),
        Ok((f, q)) => if p < q <= s.len() {
            term_tail(s, f, q)
        } else {
            Ok((f, q))
        },
    }
}

/// The terms that follow `acc` in an expression, folded to the left.
pub open spec fn expr_tail(s: Seq<char>, acc: Tree, q: int) -> Result<(Tree, int), int>
    decreases s.len() - q, 5int,
{
    let a = skip_ws(s, q);
    match add_op(s, a) {
        Some(op) => if q <= a {
            match term(s, a + 1) {
                Err(x) => Err(x),
                Ok((t, r)) => {
                    let e = Tree::Binary(op, Box::new(acc), Box::new(t));
                    if q < r <= s.len() {
                        expr_tail(s, e, r)
                    } else {
                        Ok((e, r))
                    }
                },
            }
        } else {
            Err(a)
        },
        None => Ok((acc, q)),
    }
}

pub open spec fn expr(s: Seq<char>, p: int) -> Result<(Tree, int), int>
    decreases s.len() - p, 6int,
{
    match term(s, p) {
        Err(x) => Err(x),
        Ok((t, q)) => if p < q <= s.len() {
            expr_tail(s, t, q)
        } else {
            Ok((t, q))
        },
    }
}

/// The tree of a whole notation string, or the position of the first
/// character that does not fit the grammar.
pub open spec fn notation(s: Seq<char>) -> Result<Tree, int> {
    match expr(s, 0) {
        Err(x) => Err(x),
        Ok((t, q)) => {
            let a = skip_ws(s, q);
            if a == s.len() {
                Ok(t)
            } else {
                Err(a)
            }
        },
    }
}

} // verus!
