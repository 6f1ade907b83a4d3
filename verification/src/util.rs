//! Boolean connectives and sums over expressions.
//!
//! A boolean is an expression whose value is zero or one. Conjunction is the
//! product, negation the difference from one, and selection a sum of two
//! products.

use crate::expr::degree;
use crate::expr::eval;
use crate::expr::lit;
use crate::expr::minus;
use crate::expr::plus;
use crate::expr::times;
use crate::expr::Expr;
use crate::field::fadd;
use crate::field::fmul;
use crate::field::fsub;
use crate::field::modulus;
use crate::field::Fe;
use vstd::prelude::*;

verus! {

/// The product of the inputs, from the left, starting at one.
pub open spec fn and_expr(inputs: Seq<Expr>) -> Expr
    decreases inputs.len(),
{
    if inputs.len() == 0 {
        lit(1)
    } else {
        times(and_expr(inputs.drop_last()), inputs.last())
    }
}

/// The sum of the inputs, from the left, starting at zero.
pub open spec fn sum_expr(inputs: Seq<Expr>) -> Expr
    decreases inputs.len(),
{
    if inputs.len() == 0 {
        lit(0)
    } else {
        plus(sum_expr(inputs.drop_last()), inputs.last())
    }
}

/// One minus `b`.
pub open spec fn not_expr(b: Expr) -> Expr {
    minus(lit(1), b)
}

/// The negation of every input.
pub open spec fn not_each(inputs: Seq<Expr>) -> Seq<Expr> {
    Seq::new(inputs.len(), |i: int| not_expr(inputs[i]))
}

/// The negation of the conjunction of the negated inputs.
pub open spec fn or_expr(inputs: Seq<Expr>) -> Expr {
    not_expr(and_expr(not_each(inputs)))
}

/// `selector * when_true + (1 - selector) * when_false`.
pub open spec fn select_expr(selector: Expr, when_true: Expr, when_false: Expr) -> Expr {
    plus(times(selector, when_true), times(minus(lit(1), selector), when_false))
}

/// The product of the values of the inputs.
pub open spec fn product_of(inputs: Seq<Expr>, table: Seq<Seq<int>>, challenges: Seq<int>, row: int) -> int
    decreases inputs.len(),
{
    if inputs.len() == 0 {
        1
    } else {
        fmul(
            product_of(inputs.drop_last(), table, challenges, row),
            eval(inputs.last(), table, challenges, row),
        )
    }
}

/// The sum of the values of the inputs.
pub open spec fn sum_of(inputs: Seq<Expr>, table: Seq<Seq<int>>, challenges: Seq<int>, row: int) -> int
    decreases inputs.len(),
{
    if inputs.len() == 0 {
        0
    } else {
        fadd(
            sum_of(inputs.drop_last(), table, challenges, row),
            eval(inputs.last(), table, challenges, row),
        )
    }
}

/// The sum of the degrees of the inputs.
pub open spec fn degree_sum(inputs: Seq<Expr>) -> nat
    decreases inputs.len(),
{
    if inputs.len() == 0 {
        0
    } else {
        degree_sum(inputs.drop_last()) + degree(inputs.last())
    }
}

/// The largest degree among the inputs.
pub open spec fn degree_max(inputs: Seq<Expr>) -> nat
    decreases inputs.len(),
{
    if inputs.len() == 0 {
        0
    } else if degree_max(inputs.drop_last()) >= degree(inputs.last()) {
        degree_max(inputs.drop_last())
    } else {
        degree(inputs.last())
    }
}

/// A conjunction evaluates to the product of its inputs' values, and its
/// degree is the sum of theirs.
pub proof fn lemma_and(inputs: Seq<Expr>, table: Seq<Seq<int>>, challenges: Seq<int>, row: int)
    ensures
        eval(and_expr(inputs), table, challenges, row) == product_of(
            inputs,
            table,
            challenges,
            row,
        ),
        degree(and_expr(inputs)) == degree_sum(inputs),
    decreases inputs.len(),
{
    if inputs.len() == 0 {
        Fe::lemma_of_int(1);
    } else {
        lemma_and(inputs.drop_last(), table, challenges, row);
    }
}

/// A sum evaluates to the sum of its inputs' values, and its degree is the
/// largest of theirs.
pub proof fn lemma_sum(inputs: Seq<Expr>, table: Seq<Seq<int>>, challenges: Seq<int>, row: int)
    ensures
        eval(sum_expr(inputs), table, challenges, row) == sum_of(inputs, table, challenges, row),
        degree(sum_expr(inputs)) == degree_max(inputs),
    decreases inputs.len(),
{
    if inputs.len() == 0 {
        Fe::lemma_of_int(0);
    } else {
        lemma_sum(inputs.drop_last(), table, challenges, row);
    }
}

/// The value of a polynomial is a canonical representative.
pub proof fn lemma_eval_range(e: Expr, table: Seq<Seq<int>>, challenges: Seq<int>, row: int)
    ensures
        0 <= eval(e, table, challenges, row) < modulus(),
    decreases e,
{
    match e {
        Expr::Constant(_) => {},
        Expr::Challenge(_) => {},
        Expr::Query(_, _) => {},
        Expr::Negated(a) => {},
        Expr::Sum(a, b) => {},
        Expr::Product(a, b) => {},
        Expr::Scaled(a, _) => {},
    }
}

/// On a boolean the negation is the other boolean.
pub proof fn lemma_not(b: Expr, table: Seq<Seq<int>>, challenges: Seq<int>, row: int)
    ensures
        eval(not_expr(b), table, challenges, row) == fsub(1, eval(b, table, challenges, row)),
        eval(b, table, challenges, row) == 0 ==> eval(not_expr(b), table, challenges, row) == 1,
        eval(b, table, challenges, row) == 1 ==> eval(not_expr(b), table, challenges, row) == 0,
        degree(not_expr(b)) == degree(b),
{
    reveal_with_fuel(eval, 3);
    reveal_with_fuel(degree, 3);
    Fe::lemma_of_int(1);
    lemma_eval_range(b, table, challenges, row);
}

/// A selection by a boolean evaluates to the chosen branch.
pub proof fn lemma_select(
    selector: Expr,
    when_true: Expr,
    when_false: Expr,
    table: Seq<Seq<int>>,
    challenges: Seq<int>,
    row: int,
)
    ensures
        eval(selector, table, challenges, row) == 1 ==> eval(
            select_expr(selector, when_true, when_false),
            table,
            challenges,
            row,
        ) == eval(when_true, table, challenges, row),
        eval(selector, table, challenges, row) == 0 ==> eval(
            select_expr(selector, when_true, when_false),
            table,
            challenges,
            row,
        ) == eval(when_false, table, challenges, row),
{
    reveal_with_fuel(eval, 4);
    Fe::lemma_of_int(1);
    lemma_eval_range(when_true, table, challenges, row);
    lemma_eval_range(when_false, table, challenges, row);
    let s = eval(selector, table, challenges, row);
    let t = eval(when_true, table, challenges, row);
    let f = eval(when_false, table, challenges, row);
    let p = modulus() as int;
    if s == 1 {
        assert(1 * t == t);
        assert(0 * f == 0);
        assert(fmul(1, t) == t) by {
            vstd::arithmetic::div_mod::lemma_small_mod(t as nat, p as nat);
        }
        assert(fsub(1, 1) == 0);
        assert(fmul(0, f) == 0);
        assert(fadd(t, 0) == t) by {
            vstd::arithmetic::div_mod::lemma_small_mod(t as nat, p as nat);
        }
    }
    if s == 0 {
        assert(0 * t == 0);
        assert(1 * f == f);
        assert(fmul(0, t) == 0);
        assert(fsub(1, 0) == 1);
        assert(fmul(1, f) == f) by {
            vstd::arithmetic::div_mod::lemma_small_mod(f as nat, p as nat);
        }
        assert(fadd(0, f) == f) by {
            vstd::arithmetic::div_mod::lemma_small_mod(f as nat, p as nat);
        }
    }
}

/// The conjunction of the inputs.
pub fn and(inputs: &Vec<Expr>) -> (r: Expr)
    ensures
        r == and_expr(inputs@),
{
    let mut acc = Expr::from_u64(1);
    let mut i: usize = 0;
    while i < inputs.len()
        invariant
            i <= inputs.len(),
            acc == and_expr(inputs@.take(i as int)),
        decreases inputs.len() - i,
    {
        proof {
            assert(inputs@.take(i + 1).drop_last() == inputs@.take(i as int));
        }
        acc = acc.mul(inputs[i].dup());
        i = i + 1;
    }
    proof {
        assert(inputs@.take(i as int) == inputs@);
    }
    acc
}

/// The sum of the inputs.
pub fn sum(inputs: &Vec<Expr>) -> (r: Expr)
    ensures
        r == sum_expr(inputs@),
{
    let mut acc = Expr::from_u64(0);
    let mut i: usize = 0;
    while i < inputs.len()
        invariant
            i <= inputs.len(),
            acc == sum_expr(inputs@.take(i as int)),
        decreases inputs.len() - i,
    {
        proof {
            assert(inputs@.take(i + 1).drop_last() == inputs@.take(i as int));
        }
        acc = acc.add(inputs[i].dup());
        i = i + 1;
    }
    proof {
        assert(inputs@.take(i as int) == inputs@);
    }
    acc
}

/// The negation of a boolean.
pub fn not(b: Expr) -> (r: Expr)
    ensures
        r == not_expr(b),
{
    Expr::from_u64(1).sub(b)
}

/// The disjunction of the inputs.
pub fn or(inputs: &Vec<Expr>) -> (r: Expr)
    ensures
        r == or_expr(inputs@),
{
    let mut negated: Vec<Expr> = Vec::new();
    let mut i: usize = 0;
    while i < inputs.len()
        invariant
            i <= inputs.len(),
            negated@ == not_each(inputs@.take(i as int)),
        decreases inputs.len() - i,
    {
        negated.push(not(inputs[i].dup()));
        i = i + 1;
        proof {
            assert(negated@ == not_each(inputs@.take(i as int)));
        }
    }
    proof {
        assert(inputs@.take(i as int) == inputs@);
    }
    not(and(&negated))
}

/// `when_true` where the boolean `selector` is one, `when_false` where it is
/// zero.
pub fn select(selector: Expr, when_true: Expr, when_false: Expr) -> (r: Expr)
    ensures
        r == select_expr(selector, when_true, when_false),
{
    let s = selector.dup();
    s.mul(when_true).add(Expr::from_u64(1).sub(selector).mul(when_false))
}

} // verus!
