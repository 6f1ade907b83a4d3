//! What expressions evaluate to: constants, cells, products with zero and
//! one, and the boolean connectives on booleans.

use crate::constraint_builder::lemma_equal;
use crate::constraint_builder::lemma_fmul_one;
use crate::constraint_builder::lemma_fmul_zero;
use crate::expr::cell;
use crate::expr::cell_at;
use crate::expr::eval;
use crate::expr::lit;
use crate::expr::minus;
use crate::expr::plus;
use crate::expr::times;
use crate::expr::Column;
use crate::expr::Expr;
use crate::field::fadd;
use crate::field::fmul;
use crate::field::fred;
use crate::field::fsub;
use crate::field::modulus;
use crate::field::Fe;
use crate::util::and_expr;
use crate::util::lemma_eval_range;
use crate::util::not_expr;
use crate::util::sum_expr;
use vstd::prelude::*;

verus! {

/// Zero or one.
pub open spec fn is_bit(x: int) -> bool {
    x == 0 || x == 1
}

/// A constant below the modulus evaluates to itself.
pub proof fn lemma_eval_lit(k: int, table: Seq<Seq<int>>, challenges: Seq<int>, row: int)
    requires
        0 <= k < modulus(),
    ensures
        eval(lit(k), table, challenges, row) == k,
{
    Fe::lemma_of_int(k);
}

/// A query evaluates to the cell that it reads.
pub proof fn lemma_eval_cell(
    column: Column,
    rotation: int,
    table: Seq<Seq<int>>,
    challenges: Seq<int>,
    row: int,
)
    requires
        -0x8000_0000 <= rotation < 0x8000_0000,
    ensures
        eval(cell_at(column, rotation), table, challenges, row) == cell(
            table,
            row + rotation,
            column.index as int,
        ),
{
}

/// A product with a factor that evaluates to zero evaluates to zero; a
/// product with a factor that evaluates to one evaluates to the other factor.
pub proof fn lemma_eval_times(a: Expr, b: Expr, table: Seq<Seq<int>>, challenges: Seq<int>, row: int)
    ensures
        eval(times(a, b), table, challenges, row) == fmul(
            eval(a, table, challenges, row),
            eval(b, table, challenges, row),
        ),
        eval(a, table, challenges, row) == 0 || eval(b, table, challenges, row) == 0 ==> eval(
            times(a, b),
            table,
            challenges,
            row,
        ) == 0,
        eval(a, table, challenges, row) == 1 ==> eval(times(a, b), table, challenges, row) == eval(
            b,
            table,
            challenges,
            row,
        ),
        eval(b, table, challenges, row) == 1 ==> eval(times(a, b), table, challenges, row) == eval(
            a,
            table,
            challenges,
            row,
        ),
        is_bit(eval(a, table, challenges, row)) && is_bit(eval(b, table, challenges, row))
            ==> is_bit(eval(times(a, b), table, challenges, row)),
{
    lemma_eval_range(a, table, challenges, row);
    lemma_eval_range(b, table, challenges, row);
    lemma_fmul_zero(eval(a, table, challenges, row));
    lemma_fmul_zero(eval(b, table, challenges, row));
    lemma_fmul_one(eval(a, table, challenges, row));
    lemma_fmul_one(eval(b, table, challenges, row));
}

/// A requirement holds on a row where its selector, its condition or what it
/// requires to vanish evaluates to zero.
pub proof fn lemma_requirement(
    selector: Expr,
    condition: Expr,
    body: Expr,
    table: Seq<Seq<int>>,
    challenges: Seq<int>,
    row: int,
)
    requires
        eval(selector, table, challenges, row) == 0 || eval(condition, table, challenges, row) == 0
            || eval(body, table, challenges, row) == 0,
    ensures
        eval(times(selector, times(condition, body)), table, challenges, row) == 0,
{
    lemma_eval_times(condition, body, table, challenges, row);
    lemma_eval_times(selector, times(condition, body), table, challenges, row);
}

/// The negation of a boolean is the other boolean.
pub proof fn lemma_eval_not(b: Expr, table: Seq<Seq<int>>, challenges: Seq<int>, row: int)
    requires
        is_bit(eval(b, table, challenges, row)),
    ensures
        eval(not_expr(b), table, challenges, row) == 1 - eval(b, table, challenges, row),
{
    crate::util::lemma_not(b, table, challenges, row);
}

/// The conjunction of booleans is the boolean that is one exactly if each of
/// them is.
pub proof fn lemma_eval_and(inputs: Seq<Expr>, table: Seq<Seq<int>>, challenges: Seq<int>, row: int)
    requires
        forall|i: int| 0 <= i < inputs.len() ==> is_bit(eval(#[trigger] inputs[i], table, challenges, row)),
    ensures
        is_bit(eval(and_expr(inputs), table, challenges, row)),
        eval(and_expr(inputs), table, challenges, row) == 1 <==> (forall|i: int|
            0 <= i < inputs.len() ==> eval(#[trigger] inputs[i], table, challenges, row) == 1),
    decreases inputs.len(),
{
    if inputs.len() == 0 {
        lemma_eval_lit(1, table, challenges, row);
    } else {
        let head = inputs.drop_last();
        assert forall|i: int| 0 <= i < head.len() implies is_bit(
            eval(#[trigger] head[i], table, challenges, row),
        ) by {
            assert(head[i] == inputs[i]);
        }
        lemma_eval_and(head, table, challenges, row);
        lemma_eval_times(and_expr(head), inputs.last(), table, challenges, row);
        let h = eval(and_expr(head), table, challenges, row);
        let l = eval(inputs.last(), table, challenges, row);
        assert(is_bit(l)) by {
            assert(inputs.last() == inputs[inputs.len() - 1]);
        }
        if h == 1 && l == 1 {
            assert forall|i: int| 0 <= i < inputs.len() implies eval(
                #[trigger] inputs[i],
                table,
                challenges,
                row,
            ) == 1 by {
                if i < head.len() {
                    assert(head[i] == inputs[i]);
                }
            }
        } else if h != 1 {
            let w = choose|w: int| 0 <= w < head.len() && eval(#[trigger] head[w], table, challenges, row) != 1;
            assert(head[w] == inputs[w]);
        } else {
            assert(inputs[inputs.len() - 1] == inputs.last());
        }
    }
}

/// The sum of values of which all are zero is zero; and the sum of values of
/// which all but the one at the place `k` are zero is the value at `k`.
pub proof fn lemma_eval_sum(
    inputs: Seq<Expr>,
    k: int,
    table: Seq<Seq<int>>,
    challenges: Seq<int>,
    row: int,
)
    requires
        forall|i: int|
            0 <= i < inputs.len() && i != k ==> eval(#[trigger] inputs[i], table, challenges, row) == 0,
    ensures
        0 <= k < inputs.len() ==> eval(sum_expr(inputs), table, challenges, row) == eval(
            inputs[k],
            table,
            challenges,
            row,
        ),
        !(0 <= k < inputs.len()) ==> eval(sum_expr(inputs), table, challenges, row) == 0,
    decreases inputs.len(),
{
    if inputs.len() == 0 {
        lemma_eval_lit(0, table, challenges, row);
    } else {
        let head = inputs.drop_last();
        assert forall|i: int| 0 <= i < head.len() && i != k implies eval(
            #[trigger] head[i],
            table,
            challenges,
            row,
        ) == 0 by {
            assert(head[i] == inputs[i]);
        }
        lemma_eval_sum(head, k, table, challenges, row);
        let l = eval(inputs.last(), table, challenges, row);
        lemma_eval_range(inputs.last(), table, challenges, row);
        lemma_eval_range(sum_expr(head), table, challenges, row);
        assert(inputs.last() == inputs[inputs.len() - 1]);
        if 0 <= k < head.len() {
            assert(head[k] == inputs[k]);
            assert(l == 0);
            vstd::arithmetic::div_mod::lemma_small_mod(
                eval(sum_expr(head), table, challenges, row) as nat,
                modulus(),
            );
        } else {
            vstd::arithmetic::div_mod::lemma_small_mod(l as nat, modulus());
        }
    }
}

/// A difference evaluates to zero exactly where the two sides evaluate to
/// the same.
pub proof fn lemma_eval_minus(a: Expr, b: Expr, table: Seq<Seq<int>>, challenges: Seq<int>, row: int)
    ensures
        eval(minus(a, b), table, challenges, row) == 0 <==> eval(a, table, challenges, row) == eval(
            b,
            table,
            challenges,
            row,
        ),
        eval(minus(a, b), table, challenges, row) == fsub(
            eval(a, table, challenges, row),
            eval(b, table, challenges, row),
        ),
{
    lemma_equal(a, b, table, challenges, row);
    reveal_with_fuel(eval, 3);
    let x = eval(a, table, challenges, row);
    let y = eval(b, table, challenges, row);
    vstd::arithmetic::div_mod::lemma_add_mod_noop_right(x, -y, modulus() as int);
}

/// A sum evaluates to the sum of what the two sides evaluate to.
pub proof fn lemma_eval_plus(a: Expr, b: Expr, table: Seq<Seq<int>>, challenges: Seq<int>, row: int)
    ensures
        eval(plus(a, b), table, challenges, row) == fadd(
            eval(a, table, challenges, row),
            eval(b, table, challenges, row),
        ),
{
}

/// A conjunction with an input that evaluates to zero evaluates to zero.
pub proof fn lemma_eval_and_zero(
    inputs: Seq<Expr>,
    k: int,
    table: Seq<Seq<int>>,
    challenges: Seq<int>,
    row: int,
)
    requires
        0 <= k < inputs.len(),
        eval(inputs[k], table, challenges, row) == 0,
    ensures
        eval(and_expr(inputs), table, challenges, row) == 0,
    decreases inputs.len(),
{
    let head = inputs.drop_last();
    lemma_eval_times(and_expr(head), inputs.last(), table, challenges, row);
    if k < inputs.len() - 1 {
        assert(head[k] == inputs[k]);
        lemma_eval_and_zero(head, k, table, challenges, row);
    }
}

/// The sum, the difference and the product of representatives stand for the
/// sum, the difference and the product.
pub proof fn lemma_reduced(a: int, b: int)
    ensures
        fadd(fred(a), fred(b)) == fred(a + b),
        fsub(fred(a), fred(b)) == fred(a - b),
        fmul(fred(a), fred(b)) == fred(a * b),
        fred(fred(a)) == fred(a),
        fadd(fred(a), b) == fred(a + b),
        fsub(fred(a), b) == fred(a - b),
{
    let p = modulus() as int;
    vstd::arithmetic::div_mod::lemma_add_mod_noop(a, b, p);
    vstd::arithmetic::div_mod::lemma_sub_mod_noop(a, b, p);
    vstd::arithmetic::div_mod::lemma_mul_mod_noop_general(a, b, p);
    vstd::arithmetic::div_mod::lemma_mod_twice(a, p);
    vstd::arithmetic::div_mod::lemma_add_mod_noop_right(b, a, p);
    vstd::arithmetic::div_mod::lemma_sub_mod_noop(a % p, b, p);
    vstd::arithmetic::div_mod::lemma_mod_twice(b, p);
}

} // verus!
