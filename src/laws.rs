use vstd::prelude::*;
use crate::tree::{Modifier, RollError, Expr, Tree};
use crate::select::{sum_of, keep_sum, extreme_index, lemma_extreme_index_in_range};
use crate::eval::{eval_from, abs};
use crate::parse::parsed;
use crate::grammar::{
    is_digit, is_space, digit_value, digits_end, digits_value, skip_ws, integer, atom, rhs, factor,
    modifier, term, term_tail, expr, expr_tail, notation, dice_op, at, faces,
};

verus! {

proof fn lemma_sum_range(b: Seq<i64>, lo: int, hi: int)
    requires
        forall|i: int| 0 <= i < b.len() ==> lo <= #[trigger] b[i] <= hi,
    ensures
        b.len() * lo <= sum_of(b) <= b.len() * hi,
    decreases b.len(),
{
    if b.len() > 0 {
        let c = b.drop_last();
        assert forall|i: int| 0 <= i < c.len() implies lo <= #[trigger] c[i] <= hi by {
            assert(c[i] == b[i]);
        }
        lemma_sum_range(c, lo, hi);
        assert(lo <= b.last() <= hi) by {
            assert(b.last() == b[b.len() - 1]);
        }
        assert((c.len() + 1) * lo == c.len() * lo + lo) by (nonlinear_arith);
        assert((c.len() + 1) * hi == c.len() * hi + hi) by (nonlinear_arith);
    }
}

/// The tree of a roll of `n` standard dice of `s` sides that keeps every die.
pub open spec fn plain_roll(n: i64, s: i64) -> Tree {
    Tree::Standard(Box::new(Tree::Number(n)), Box::new(Tree::Number(s)), Modifier::All)
}

proof fn lemma_plain_roll_range(n: i64, s: i64, log: Seq<Seq<i64>>, p: int)
    requires
        s >= 1,
        n != 0,
        abs(n) * s <= i64::MAX,
        eval_from(plain_roll(n, s), log, p).fair,
    ensures
        eval_from(plain_roll(n, s), log, p).value is Ok,
        n > 0 ==> n <= eval_from(plain_roll(n, s), log, p).value->Ok_0 <= n * s,
        n < 0 ==> n * s <= eval_from(plain_roll(n, s), log, p).value->Ok_0 <= n,
{
    let batch = log[p];
    assert(eval_from(Tree::Number(n), log, p).next == p);
    assert(eval_from(Tree::Number(s), log, p).next == p);
    assert(batch.len() == abs(n));
    lemma_sum_range(batch, 1, s as int);
    let t = sum_of(batch);
    assert(abs(n) <= t <= abs(n) * s);
    assert(abs(n) * 1 <= abs(n) * s) by (nonlinear_arith)
        requires
            s >= 1,
            abs(n) >= 0,
    ;
    if n < 0 {
        assert(n * s == -(abs(n) * s)) by (nonlinear_arith)
            requires
                abs(n) == -n,
        ;
    } else {
        assert(n * s == abs(n) * s);
    }
}

/// Keeping the `k` highest or lowest of samples that all lie in `[lo, hi]`
/// sums `c` of them, where `c` is `k` clamped to their number: the result
/// lies in `[c * lo, c * hi]`.
pub proof fn law_keep_range(b: Seq<i64>, k: int, high: bool, lo: int, hi: int)
    requires
        k >= 0,
        forall|i: int| 0 <= i < b.len() ==> lo <= #[trigger] b[i] <= hi,
    ensures
        ({
            let c = if k < b.len() {
                k
            } else {
                b.len() as int
            };
            c * lo <= keep_sum(b, k, high) <= c * hi
        }),
    decreases k,
{
    if k > 0 && b.len() > 0 {
        let j = extreme_index(b, high);
        lemma_extreme_index_in_range(b, high);
        let r = b.remove(j);
        assert forall|i: int| 0 <= i < r.len() implies lo <= #[trigger] r[i] <= hi by {
            if i < j {
                assert(r[i] == b[i]);
            } else {
                assert(r[i] == b[i + 1]);
            }
        }
        law_keep_range(r, k - 1, high, lo, hi);
        assert(lo <= b[j] <= hi);
        assert(keep_sum(b, k, high) == b[j] + keep_sum(r, k - 1, high));
        let c = if k < b.len() {
            k
        } else {
            b.len() as int
        };
        assert(c * lo == (c - 1) * lo + lo) by (nonlinear_arith);
        assert(c * hi == (c - 1) * hi + hi) by (nonlinear_arith);
    } else {
        assert(keep_sum(b, k, high) == 0);
        let c = if k < b.len() {
            k
        } else {
            b.len() as int
        };
        assert(c == 0);
        assert(c * lo == 0 && c * hi == 0) by (nonlinear_arith)
            requires
                c == 0,
        ;
    }
}

/// Parsing has no effect and depends on the text alone: two parses of one
/// notation give the same tree, or the same error.
pub proof fn law_parse_repeatable(s: Seq<char>, first: Result<Expr, RollError>, second: Result<Expr, RollError>)
    requires
        parsed(s, first),
        parsed(s, second),
    ensures
        first is Ok <==> second is Ok,
        first is Ok ==> first->Ok_0.tree() == second->Ok_0.tree(),
        first is Err ==> first == second,
{
}

/// The character of the decimal digit `d`.
pub open spec fn digit_char(d: int) -> char {
    if d == 0 {
        '0'
    } else if d == 1 {
        '1'
    } else if d == 2 {
        '2'
    } else if d == 3 {
        '3'
    } else if d == 4 {
        '4'
    } else if d == 5 {
        '5'
    } else if d == 6 {
        '6'
    } else if d == 7 {
        '7'
    } else if d == 8 {
        '8'
    } else {
        '9'
    }
}

/// The decimal digits of `v`, without leading zeros.
pub open spec fn decimal(v: nat) -> Seq<char>
    decreases v,
{
    if v < 10 {
        seq![digit_char(v as int)]
    } else {
        decimal(v / 10).push(digit_char((v % 10) as int))
    }
}

/// `v` written in base ten, with a leading `-` when negative.
pub open spec fn signed_decimal(v: int) -> Seq<char> {
    if v < 0 {
        seq!['-'] + decimal((-v) as nat)
    } else {
        decimal(v as nat)
    }
}

/// The notation `{n}{letter}{s}`.
pub open spec fn roll_text_with(n: i64, s: i64, letter: char) -> Seq<char> {
    signed_decimal(n as int) + seq![letter] + signed_decimal(s as int)
}

/// The notation `{n}d{s}`.
pub open spec fn roll_text(n: i64, s: i64) -> Seq<char> {
    roll_text_with(n, s, 'd')
}

proof fn lemma_digit_char(d: int)
    requires
        0 <= d < 10,
    ensures
        is_digit(digit_char(d)),
        digit_value(digit_char(d)) == d,
        !is_space(digit_char(d)),
        digit_char(d) != '-' && digit_char(d) != 'd' && digit_char(d) != 'D',
        digit_char(d) != 'i' && digit_char(d) != '[' && digit_char(d) != '(',
{
}

proof fn lemma_decimal_shape(v: nat)
    ensures
        decimal(v).len() >= 1,
        forall|i: int| 0 <= i < decimal(v).len() ==> is_digit(#[trigger] decimal(v)[i]) && !is_space(
            decimal(v)[i],
        ) && decimal(v)[i] != '-' && decimal(v)[i] != 'd' && decimal(v)[i] != 'D' && decimal(v)[i]
            != 'i' && decimal(v)[i] != '[' && decimal(v)[i] != '(',
        v > 0 ==> decimal(v)[0] != '0',
        v == 0 ==> decimal(v) == seq!['0'],
        decimal(v).len() <= v + 1,
    decreases v,
{
    if v < 10 {
        lemma_digit_char(v as int);
    } else {
        lemma_decimal_shape(v / 10);
        lemma_digit_char((v % 10) as int);
        let d = decimal(v / 10);
        assert forall|i: int| 0 <= i < decimal(v).len() implies is_digit(#[trigger] decimal(v)[i])
            && !is_space(decimal(v)[i]) && decimal(v)[i] != '-' && decimal(v)[i] != 'd'
            && decimal(v)[i] != 'D' && decimal(v)[i] != 'i' && decimal(v)[i] != '['
            && decimal(v)[i] != '(' by {
            if i < d.len() {
                assert(decimal(v)[i] == d[i]);
            }
        }
        assert(decimal(v)[0] == d[0]);
    }
}

/// The digits of `decimal(v)` standing at `a` in `t` have the value `v`.
proof fn lemma_decimal_value(t: Seq<char>, a: int, v: nat)
    requires
        0 <= a,
        a + decimal(v).len() <= t.len(),
        forall|i: int| 0 <= i < decimal(v).len() ==> t[a + i] == #[trigger] decimal(v)[i],
    ensures
        digits_value(t, a, a + decimal(v).len()) == v,
    decreases v,
{
    lemma_decimal_shape(v);
    let l = decimal(v).len() as int;
    if v < 10 {
        lemma_digit_char(v as int);
        assert(t[a + 0] == decimal(v)[0]);
        assert(digits_value(t, a, a) == 0);
    } else {
        let d = decimal(v / 10);
        lemma_decimal_shape(v / 10);
        assert forall|i: int| 0 <= i < d.len() implies t[a + i] == #[trigger] d[i] by {
            assert(decimal(v)[i] == d[i]);
        }
        lemma_decimal_value(t, a, v / 10);
        lemma_digit_char((v % 10) as int);
        assert(t[a + (l - 1)] == decimal(v)[l - 1]);
        assert(decimal(v)[l - 1] == digit_char((v % 10) as int));
        assert(a + l - 1 == a + (l - 1));
    }
}

proof fn lemma_digit_run(t: Seq<char>, p: int, e: int)
    requires
        0 <= p <= e <= t.len(),
        forall|i: int| p <= i < e ==> is_digit(#[trigger] t[i]),
        e == t.len() || !is_digit(t[e]),
    ensures
        digits_end(t, p) == e,
    decreases e - p,
{
    if p < e {
        lemma_digit_run(t, p + 1, e);
    }
}

/// `signed_decimal(v)` standing at `a` in `t`, followed by a character that
/// is no digit or by the end of `t`, is read back as `v`.
proof fn lemma_integer_at(t: Seq<char>, a: int, v: i64)
    requires
        0 <= a,
        a + signed_decimal(v as int).len() <= t.len(),
        forall|i: int|
            0 <= i < signed_decimal(v as int).len() ==> t[a + i] == #[trigger] signed_decimal(
                v as int,
            )[i],
        a + signed_decimal(v as int).len() == t.len() || !is_digit(
            t[a + signed_decimal(v as int).len()],
        ),
    ensures
        integer(t, a) == Ok::<(i64, int), int>((v, a + signed_decimal(v as int).len())),
        skip_ws(t, a) == a,
{
    let m: nat = if v < 0 {
        (-v) as nat
    } else {
        v as nat
    };
    let sd = signed_decimal(v as int);
    let dd = decimal(m);
    lemma_decimal_shape(m);
    let d = if v < 0 {
        a + 1
    } else {
        a
    };
    assert(sd.len() == (d - a) + dd.len());
    assert forall|i: int| 0 <= i < dd.len() implies t[d + i] == #[trigger] dd[i] by {
        assert(t[a + ((d - a) + i)] == sd[(d - a) + i]);
        assert(sd[(d - a) + i] == dd[i]);
    }
    assert(t[a + 0] == sd[0]);
    assert(!is_space(t[a])) by {
        if v >= 0 {
            assert(sd[0] == dd[0]);
        }
    }
    assert(skip_ws(t, a) == a);
    assert(at(t, a, '-') == (v < 0)) by {
        if v >= 0 {
            assert(sd[0] == dd[0]);
        }
    }
    assert forall|i: int| d <= i < d + dd.len() implies is_digit(#[trigger] t[i]) by {
        assert(t[d + (i - d)] == dd[i - d]);
    }
    lemma_digit_run(t, d, d + dd.len());
    lemma_decimal_value(t, d, m);
    assert(t[d + 0] == dd[0]);
}

/// What the grammar meets in `{n}{letter}{s}`: two integers around a dice
/// operator, and nothing after them.
proof fn lemma_roll_text_tokens(n: i64, s: i64, letter: char)
    requires
        letter == 'd' || letter == 'D',
    ensures
        ({
            let t = roll_text_with(n, s, letter);
            let q = signed_decimal(n as int).len() as int;
            &&& 0 < q < t.len()
            &&& atom(t, 0) == Ok::<(Tree, int), int>((Tree::Number(n), q))
            &&& skip_ws(t, q) == q
            &&& dice_op(t, q)
            &&& skip_ws(t, q + 1) == q + 1
            &&& !at(t, q + 1, '[')
            &&& atom(t, q + 1) == Ok::<(Tree, int), int>((Tree::Number(s), t.len() as int))
            &&& skip_ws(t, t.len() as int) == t.len()
            &&& !dice_op(t, t.len() as int)
        }),
{
    let t = roll_text_with(n, s, letter);
    let a = signed_decimal(n as int);
    let b = signed_decimal(s as int);
    let q = a.len() as int;
    let len = t.len() as int;
    lemma_decimal_shape(if n < 0 { (-n) as nat } else { n as nat });
    lemma_decimal_shape(if s < 0 { (-s) as nat } else { s as nat });
    assert(len == q + 1 + b.len());
    assert(t[q] == letter);
    assert forall|i: int| 0 <= i < a.len() implies t[0 + i] == #[trigger] a[i] by {
        assert(t[i] == a[i]);
    }
    assert forall|i: int| 0 <= i < b.len() implies t[(q + 1) + i] == #[trigger] b[i] by {
        assert(t[q + 1 + i] == b[i]);
    }
    lemma_integer_at(t, 0, n);
    lemma_integer_at(t, q + 1, s);
    assert(t[q + 1] == b[0]);
    assert(t[0] == a[0]);
    if s >= 0 {
        assert(b[0] == decimal(s as nat)[0]);
    } else {
        assert(b[0] == '-');
    }
    if n >= 0 {
        assert(a[0] == decimal(n as nat)[0]);
    } else {
        assert(a[0] == '-');
    }
    assert(skip_ws(t, q) == q);
    assert(skip_ws(t, q + 1) == q + 1);
    assert(skip_ws(t, len) == len);
}

/// The text `{n}d{s}`, or `{n}D{s}`, parses to the roll of `n` dice of `s`
/// sides.
pub proof fn law_roll_text_parses(n: i64, s: i64, letter: char)
    requires
        letter == 'd' || letter == 'D',
    ensures
        notation(roll_text_with(n, s, letter)) == Ok::<Tree, int>(plain_roll(n, s)),
{
    let t = roll_text_with(n, s, letter);
    let q = signed_decimal(n as int).len() as int;
    let len = t.len() as int;
    let r = plain_roll(n, s);
    lemma_roll_text_tokens(n, s, letter);
    assert(modifier(t, len) == Ok::<(Modifier, int), int>((Modifier::All, len)));
    assert(rhs(t, Tree::Number(n), q + 1) == Ok::<(Tree, int), int>((r, len)));
    assert(factor(t, 0) == Ok::<(Tree, int), int>((r, len)));
    assert(term_tail(t, r, len) == Ok::<(Tree, int), int>((r, len)));
    assert(term(t, 0) == Ok::<(Tree, int), int>((r, len)));
    assert(expr_tail(t, r, len) == Ok::<(Tree, int), int>((r, len)));
    assert(expr(t, 0) == Ok::<(Tree, int), int>((r, len)));
}

/// With fair dice, the notation `{n}d{s}` (`s >= 1`, `n != 0`, and `|n| * s`
/// within 64 bits) evaluates to a value between `n` and `n * s`: in
/// `[n, n * s]` for a positive count and in `[n * s, n]` for a negative one.
pub proof fn law_standard_roll_range(n: i64, s: i64, log: Seq<Seq<i64>>, p: int)
    requires
        s >= 1,
        n != 0,
        abs(n) * s <= i64::MAX,
        eval_from(notation(roll_text(n, s))->Ok_0, log, p).fair,
    ensures
        eval_from(notation(roll_text(n, s))->Ok_0, log, p).value is Ok,
        n > 0 ==> n <= eval_from(notation(roll_text(n, s))->Ok_0, log, p).value->Ok_0 <= n * s,
        n < 0 ==> n * s <= eval_from(notation(roll_text(n, s))->Ok_0, log, p).value->Ok_0 <= n,
{
    law_roll_text_parses(n, s, 'd');
    lemma_plain_roll_range(n, s, log, p);
}

/// The dice operator may be written in either case: `{n}D{s}` reads as
/// `{n}d{s}`.
pub proof fn law_dice_letter_case(n: i64, s: i64)
    ensures
        notation(roll_text_with(n, s, 'D')) == notation(roll_text_with(n, s, 'd')),
{
    law_roll_text_parses(n, s, 'D');
    law_roll_text_parses(n, s, 'd');
}

/// A face list as written after `[`: the faces in base ten, `sep` between
/// them, and the closing `]`.
pub open spec fn face_text(fs: Seq<i64>, sep: Seq<char>) -> Seq<char>
    decreases fs.len(),
{
    if fs.len() == 0 {
        seq![']']
    } else if fs.len() == 1 {
        signed_decimal(fs[0] as int) + seq![']']
    } else {
        signed_decimal(fs[0] as int) + sep + face_text(fs.drop_first(), sep)
    }
}

/// The notation `{n}d[f1{sep}f2{sep}...]`.
pub open spec fn custom_text(n: i64, fs: Seq<i64>, sep: Seq<char>) -> Seq<char> {
    signed_decimal(n as int) + seq!['d', '['] + face_text(fs, sep)
}

/// The separators that the face lists of `custom_text` are written with:
/// a comma, with or without a space after it.
pub open spec fn face_separator(sep: Seq<char>) -> bool {
    sep == seq![','] || sep == seq![',', ' ']
}

proof fn lemma_signed_decimal_start(v: int)
    ensures
        signed_decimal(v).len() >= 1,
        !is_space(signed_decimal(v)[0]),
        signed_decimal(v)[0] != 'i' && signed_decimal(v)[0] != '(' && signed_decimal(v)[0]
            != '[',
{
    if v < 0 {
        lemma_decimal_shape((-v) as nat);
    } else {
        lemma_decimal_shape(v as nat);
        assert(signed_decimal(v)[0] == decimal(v as nat)[0]);
    }
}

/// `integer` reads the same after leading whitespace.
proof fn lemma_integer_from(t: Seq<char>, p: int, a: int, v: i64)
    requires
        0 <= p <= a,
        skip_ws(t, p) == a,
        a + signed_decimal(v as int).len() <= t.len(),
        forall|i: int|
            0 <= i < signed_decimal(v as int).len() ==> t[a + i] == #[trigger] signed_decimal(
                v as int,
            )[i],
        a + signed_decimal(v as int).len() == t.len() || !is_digit(
            t[a + signed_decimal(v as int).len()],
        ),
    ensures
        integer(t, p) == Ok::<(i64, int), int>((v, a + signed_decimal(v as int).len())),
{
    lemma_integer_at(t, a, v);
    assert(integer(t, p) == integer(t, a));
}

/// The faces of `face_text(fs, sep)`, standing in `t` after whitespace that
/// ends at `b`, are read up to the end of `t`.
proof fn lemma_faces_text(t: Seq<char>, p: int, b: int, fs: Seq<i64>, sep: Seq<char>, acc: Seq<i64>)
    requires
        0 <= p <= b,
        skip_ws(t, p) == b,
        fs.len() >= 1,
        face_separator(sep),
        b + face_text(fs, sep).len() == t.len(),
        forall|i: int| 0 <= i < face_text(fs, sep).len() ==> t[b + i] == #[trigger] face_text(fs, sep)[i],
    ensures
        faces(t, p, acc) == Ok::<(Seq<i64>, int), int>((acc + fs, t.len() as int)),
    decreases fs.len(),
{
    let ft = face_text(fs, sep);
    let d = signed_decimal(fs[0] as int);
    let q = b + d.len();
    lemma_signed_decimal_start(fs[0] as int);
    assert forall|i: int| 0 <= i < d.len() implies t[b + i] == #[trigger] d[i] by {
        assert(ft[i] == d[i]);
    }
    assert(t[q] == ft[d.len() as int]);
    if fs.len() == 1 {
        assert(ft[d.len() as int] == ']');
        lemma_integer_from(t, p, b, fs[0]);
        assert(skip_ws(t, q) == q);
        assert(acc.push(fs[0]) =~= acc + fs);
    } else {
        let rest = face_text(fs.drop_first(), sep);
        assert(ft == d + sep + rest);
        assert(ft[d.len() as int] == ',');
        lemma_integer_from(t, p, b, fs[0]);
        assert(skip_ws(t, q) == q);
        let b2 = q + sep.len();
        lemma_signed_decimal_start(fs[1] as int);
        assert(fs.drop_first()[0] == fs[1]);
        assert(rest.len() >= 1 && rest[0] == signed_decimal(fs[1] as int)[0]) by {
            lemma_signed_decimal_start(fs[1] as int);
        }
        assert forall|i: int| 0 <= i < rest.len() implies t[b2 + i] == #[trigger] rest[i] by {
            assert(ft[d.len() + sep.len() + i] == rest[i]);
            assert(t[b + (d.len() + sep.len() + i)] == ft[d.len() + sep.len() + i]);
        }
        assert(t[b2 + 0] == rest[0]);
        assert(!is_space(t[b2]));
        assert(skip_ws(t, b2) == b2);
        if sep.len() == 2 {
            assert(sep == seq![',', ' ']);
            assert(t[b + (d.len() as int + 1)] == ft[d.len() as int + 1]);
            assert(ft[d.len() as int + 1] == sep[1]);
            assert(t[q + 1] == ' ');
            assert(b2 == q + 2);
            assert(skip_ws(t, q + 1) == skip_ws(t, q + 2));
        } else {
            assert(sep == seq![',']);
            assert(b2 == q + 1);
        }
        assert(skip_ws(t, q + 1) == b2);
        lemma_faces_text(t, q + 1, b2, fs.drop_first(), sep, acc.push(fs[0]));
        assert(acc.push(fs[0]) + fs.drop_first() =~= acc + fs);
    }
}

/// What the grammar meets in `{n}d[f1,f2,...]`: an integer, the dice
/// operator, and a face list that runs to the end.
proof fn lemma_custom_text_tokens(n: i64, fs: Seq<i64>, sep: Seq<char>)
    requires
        fs.len() >= 1,
        face_separator(sep),
    ensures
        ({
            let t = custom_text(n, fs, sep);
            let q = signed_decimal(n as int).len() as int;
            &&& 0 < q && q + 2 < t.len()
            &&& atom(t, 0) == Ok::<(Tree, int), int>((Tree::Number(n), q))
            &&& skip_ws(t, q) == q
            &&& dice_op(t, q)
            &&& skip_ws(t, q + 1) == q + 1
            &&& at(t, q + 1, '[')
            &&& faces(t, q + 2, Seq::empty()) == Ok::<(Seq<i64>, int), int>((fs, t.len() as int))
            &&& skip_ws(t, t.len() as int) == t.len()
            &&& !dice_op(t, t.len() as int)
        }),
{
    let t = custom_text(n, fs, sep);
    let a = signed_decimal(n as int);
    let ft = face_text(fs, sep);
    let q = a.len() as int;
    let len = t.len() as int;
    lemma_signed_decimal_start(n as int);
    lemma_signed_decimal_start(fs[0] as int);
    assert(len == q + 2 + ft.len());
    assert(t[q] == 'd');
    assert(t[q + 1] == '[');
    assert forall|i: int| 0 <= i < a.len() implies t[0 + i] == #[trigger] a[i] by {
        assert(t[i] == a[i]);
    }
    assert forall|i: int| 0 <= i < ft.len() implies t[(q + 2) + i] == #[trigger] ft[i] by {
        assert(t[q + 2 + i] == ft[i]);
    }
    lemma_integer_at(t, 0, n);
    assert(t[0] == a[0]);
    assert(skip_ws(t, q) == q);
    assert(skip_ws(t, q + 1) == q + 1);
    assert(ft[0] == signed_decimal(fs[0] as int)[0]);
    assert(t[q + 2 + 0] == ft[0]);
    assert(skip_ws(t, q + 2) == q + 2);
    lemma_faces_text(t, q + 2, q + 2, fs, sep, Seq::empty());
    assert(Seq::<i64>::empty() + fs =~= fs);
    assert(skip_ws(t, len) == len);
}

/// The text `{n}d[f1,f2,...]`, with or without a space after each comma,
/// parses to the roll of `n` dice with faces `fs`.
pub proof fn law_custom_text_parses(n: i64, fs: Seq<i64>, sep: Seq<char>)
    requires
        fs.len() >= 1,
        face_separator(sep),
    ensures
        notation(custom_text(n, fs, sep)) == Ok::<Tree, int>(
            Tree::Custom(Box::new(Tree::Number(n)), fs, Modifier::All),
        ),
{
    let t = custom_text(n, fs, sep);
    let q = signed_decimal(n as int).len() as int;
    let len = t.len() as int;
    let r = Tree::Custom(Box::new(Tree::Number(n)), fs, Modifier::All);
    lemma_custom_text_tokens(n, fs, sep);
    assert(modifier(t, len) == Ok::<(Modifier, int), int>((Modifier::All, len)));
    assert(rhs(t, Tree::Number(n), q + 1) == Ok::<(Tree, int), int>((r, len)));
    assert(factor(t, 0) == Ok::<(Tree, int), int>((r, len)));
    assert(term_tail(t, r, len) == Ok::<(Tree, int), int>((r, len)));
    assert(term(t, 0) == Ok::<(Tree, int), int>((r, len)));
    assert(expr_tail(t, r, len) == Ok::<(Tree, int), int>((r, len)));
    assert(expr(t, 0) == Ok::<(Tree, int), int>((r, len)));
}

/// Whitespace after the commas of a face list changes nothing:
/// `{n}d[f1,f2,...]` and `{n}d[f1, f2, ...]` give the same tree, so they are
/// rolled alike.
pub proof fn law_face_list_spacing(n: i64, fs: Seq<i64>)
    requires
        fs.len() >= 1,
    ensures
        notation(custom_text(n, fs, seq![','])) == notation(custom_text(n, fs, seq![',', ' '])),
{
    law_custom_text_parses(n, fs, seq![',']);
    law_custom_text_parses(n, fs, seq![',', ' ']);
}

} // verus!
