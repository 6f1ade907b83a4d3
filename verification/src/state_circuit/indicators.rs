//! What the indicator of a kind of target evaluates to: one on a row of the
//! kind, and zero on a row of another kind.

use crate::expr::eval;
use crate::expr::lit;
use crate::expr::minus;
use crate::expr::Expr;
use crate::field::finv;
use crate::field::fmul;
use crate::field::modulus;
use crate::field::Fe;
use crate::semantics::lemma_eval_lit;
use crate::semantics::lemma_eval_minus;
use crate::semantics::lemma_eval_times;
use crate::state_circuit::constraint_builder::lagrange_base;
use crate::state_circuit::constraint_builder::lagrange_denominator;
use crate::state_circuit::constraint_builder::lagrange_numerator;
use crate::state_circuit::constraint_builder::rw_table_tag_indices;
use crate::state_circuit::constraint_builder::tag_matches;
use crate::state_circuit::constraint_builder::Queries;
use crate::state_circuit::constraint_builder::RwTableTag;
use vstd::prelude::*;

verus! {

/// The denominator is an element of the field.
pub proof fn lemma_denominator_range(val: int, range: Seq<u64>)
    ensures
        0 <= lagrange_denominator(val, range) < modulus(),
    decreases range.len(),
{
    if range.len() > 0 {
        lemma_denominator_range(val, range.drop_last());
    }
}

/// Where `exp` evaluates to `val`, the numerator evaluates to the
/// denominator.
pub proof fn lemma_numerator_at(
    exp: Expr,
    val: int,
    range: Seq<u64>,
    table: Seq<Seq<int>>,
    challenges: Seq<int>,
    row: int,
)
    requires
        eval(exp, table, challenges, row) == val,
    ensures
        eval(lagrange_numerator(exp, val, range), table, challenges, row) == lagrange_denominator(
            val,
            range,
        ),
    decreases range.len(),
{
    if range.len() == 0 {
        lemma_eval_lit(1, table, challenges, row);
    } else {
        let rest = lagrange_numerator(exp, val, range.drop_last());
        lemma_numerator_at(exp, val, range.drop_last(), table, challenges, row);
        let other = range.last() as int;
        lemma_eval_lit(other, table, challenges, row);
        lemma_eval_minus(exp, lit(other), table, challenges, row);
        lemma_eval_times(rest, minus(exp, lit(other)), table, challenges, row);
    }
}

/// Where `exp` evaluates to a number of `range` other than `val`, the
/// numerator evaluates to zero.
pub proof fn lemma_numerator_off(
    exp: Expr,
    val: int,
    range: Seq<u64>,
    k: int,
    table: Seq<Seq<int>>,
    challenges: Seq<int>,
    row: int,
)
    requires
        0 <= k < range.len(),
        range[k] != val,
        eval(exp, table, challenges, row) == range[k],
    ensures
        eval(lagrange_numerator(exp, val, range), table, challenges, row) == 0,
    decreases range.len(),
{
    let rest = lagrange_numerator(exp, val, range.drop_last());
    let other = range.last() as int;
    lemma_eval_lit(other, table, challenges, row);
    lemma_eval_minus(exp, lit(other), table, challenges, row);
    lemma_eval_times(rest, minus(exp, lit(other)), table, challenges, row);
    if k < range.len() - 1 {
        assert(range.drop_last()[k] == range[k]);
        lemma_numerator_off(exp, val, range.drop_last(), k, table, challenges, row);
    }
}

/// The Lagrange polynomial of `val` evaluates to one where `exp` evaluates
/// to `val` and the denominator has an inverse, and to zero where `exp`
/// evaluates to another number of `range`.
pub proof fn lemma_lagrange_base(
    exp: Expr,
    val: int,
    range: Seq<u64>,
    table: Seq<Seq<int>>,
    challenges: Seq<int>,
    row: int,
)
    ensures
        ({
            let d = lagrange_denominator(val, range);
            eval(exp, table, challenges, row) == val && 0 <= finv(d) < modulus() && fmul(d, finv(d))
                == 1 ==> eval(lagrange_base(exp, val, range), table, challenges, row) == 1
        }),
        forall|k: int|
            0 <= k < range.len() && #[trigger] range[k] != val && eval(exp, table, challenges, row)
                == range[k] ==> eval(lagrange_base(exp, val, range), table, challenges, row) == 0,
{
    let d = lagrange_denominator(val, range);
    let numerator = lagrange_numerator(exp, val, range);
    lemma_denominator_range(val, range);
    if eval(exp, table, challenges, row) == val && 0 <= finv(d) < modulus() && fmul(d, finv(d))
        == 1 {
        lemma_numerator_at(exp, val, range, table, challenges, row);
        crate::constraint_builder::lemma_fmul_zero(finv(d));
        vstd::arithmetic::div_mod::lemma_small_mod(d as nat, modulus());
        Fe::lemma_of_int(finv(d));
    }
    assert forall|k: int|
        0 <= k < range.len() && #[trigger] range[k] != val && eval(exp, table, challenges, row)
            == range[k] implies eval(lagrange_base(exp, val, range), table, challenges, row)
        == 0 by {
        lemma_numerator_off(exp, val, range, k, table, challenges, row);
        crate::constraint_builder::lemma_fmul_zero(
            Fe::of_int(crate::field::finv_or_zero(d))@,
        );
    }
}

/// The indicator of a kind of target evaluates to one on a row of that kind,
/// where the denominator of the indicator has an inverse, and to zero on a
/// row of another kind.
pub proof fn law_tag_matches(
    q: &Queries,
    tag: RwTableTag,
    kind: RwTableTag,
    table: Seq<Seq<int>>,
    challenges: Seq<int>,
    row: int,
)
    requires
        eval(q.tag, table, challenges, row) == kind.spec_index(),
        kind == tag ==> {
            let d = lagrange_denominator(tag.spec_index() as int, rw_table_tag_indices(10));
            0 <= finv(d) < modulus() && fmul(d, finv(d)) == 1
        },
    ensures
        eval(tag_matches(q, tag), table, challenges, row) == (if kind == tag {
            1int
        } else {
            0int
        }),
{
    let range = rw_table_tag_indices(10);
    lemma_lagrange_base(q.tag, tag.spec_index() as int, range, table, challenges, row);
    if kind != tag {
        let k = kind.spec_index() - 1;
        assert(range[k] == kind.spec_index() as u64);
        assert(range[k] != tag.spec_index() as int);
    }
}

} // verus!
