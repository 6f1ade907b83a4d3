//! The constraint-and-lookup builder.
//!
//! A builder collects named polynomials, each of which has to vanish on every
//! enabled row, and named lookups. Every requirement is made under a scope:
//! the product of the conditions it is nested in. A scope is a value of its
//! own, handed to each call; leaving a nested scope is dropping it.

use crate::expr::degree;
use crate::expr::eval;
use crate::expr::lit;
use crate::expr::minus;
use crate::expr::times;
use crate::expr::Constraint;
use crate::expr::Expr;
use crate::field::fmul;
use crate::field::fsub;
use crate::field::modulus;
use crate::field::Fe;
use crate::util::lemma_eval_range;
use vstd::prelude::*;

verus! {

/// A named lookup: the first expression has to take, on every row, a value
/// that the second takes on some row.
pub type Lookup = (&'static str, (Expr, Expr));

/// The condition under which requirements are made.
pub struct Scope {
    pub condition: Expr,
}

/// The polynomial that vanishes where `item` equals an element of `set`: the
/// product of the differences, from the left, starting at one.
pub open spec fn in_set_poly(item: Expr, set: Seq<Expr>) -> Expr
    decreases set.len(),
{
    if set.len() == 0 {
        lit(1)
    } else {
        times(in_set_poly(item, set.drop_last()), minus(item, set.last()))
    }
}

/// `e * (1 - e)`, which vanishes where `e` is zero or one.
pub open spec fn boolean_poly(e: Expr) -> Expr {
    times(e, minus(lit(1), e))
}

/// Every constraint multiplied, on the left, by `selector`.
pub open spec fn gated(constraints: Seq<Constraint>, selector: Expr) -> Seq<Constraint> {
    Seq::new(constraints.len(), |i: int| (constraints[i].0, times(selector, constraints[i].1)))
}

/// The degree of `in_set_poly`: as many times the degree of a difference as
/// the set has elements.
pub open spec fn in_set_degree(item: Expr, set: Seq<Expr>) -> nat
    decreases set.len(),
{
    if set.len() == 0 {
        0
    } else {
        in_set_degree(item, set.drop_last()) + degree(minus(item, set.last()))
    }
}

/// No two non-zero elements of the field have the product zero. This holds
/// because the modulus is prime.
pub open spec fn no_zero_divisors() -> bool {
    forall|a: int, b: int|
        0 <= a < modulus() && 0 <= b < modulus() && #[trigger] fmul(a, b) == 0 ==> a == 0 || b
            == 0
}

/// A product with the factor zero is zero.
pub proof fn lemma_fmul_zero(a: int)
    ensures
        fmul(a, 0) == 0,
        fmul(0, a) == 0,
{
    assert(a * 0 == 0);
    assert(0 * a == 0);
}

/// The product of one and a canonical representative is that representative.
pub proof fn lemma_fmul_one(a: int)
    requires
        0 <= a < modulus(),
    ensures
        fmul(1, a) == a,
        fmul(a, 1) == a,
{
    assert(a * 1 == a);
    assert(1 * a == a);
    vstd::arithmetic::div_mod::lemma_small_mod(a as nat, modulus());
}

/// The difference of two canonical representatives is zero exactly where
/// they are equal.
pub proof fn lemma_fsub_zero(a: int, b: int)
    requires
        0 <= a < modulus(),
        0 <= b < modulus(),
    ensures
        fsub(a, b) == 0 <==> a == b,
{
    let p = modulus() as int;
    if a == b {
    } else if a > b {
        vstd::arithmetic::div_mod::lemma_small_mod((a - b) as nat, modulus());
    } else {
        assert(a - b == p * (-1) + (a - b + p));
        vstd::arithmetic::div_mod::lemma_fundamental_div_mod_converse(a - b, p, -1, a - b + p);
    }
}

/// Where `item` takes the value of an element of `set`, `in_set_poly`
/// vanishes.
pub proof fn lemma_in_set_member(
    item: Expr,
    set: Seq<Expr>,
    k: int,
    table: Seq<Seq<int>>,
    challenges: Seq<int>,
    row: int,
)
    requires
        0 <= k < set.len(),
        eval(item, table, challenges, row) == eval(set[k], table, challenges, row),
    ensures
        eval(in_set_poly(item, set), table, challenges, row) == 0,
    decreases set.len(),
{
    reveal_with_fuel(eval, 4);
    let last = set.last();
    let head = in_set_poly(item, set.drop_last());
    let h = eval(head, table, challenges, row);
    let d = eval(minus(item, last), table, challenges, row);
    if k == set.len() - 1 {
        lemma_eval_range(item, table, challenges, row);
        lemma_eval_range(last, table, challenges, row);
        let x = eval(item, table, challenges, row);
        let y = eval(last, table, challenges, row);
        assert(fsub(0, y) == (-y) % (modulus() as int));
        assert(d == (x + (-y) % (modulus() as int)) % (modulus() as int));
        assert(d == 0) by {
            vstd::arithmetic::div_mod::lemma_add_mod_noop_right(x, -y, modulus() as int);
        }
        lemma_fmul_zero(h);
    } else {
        lemma_in_set_member(item, set.drop_last(), k, table, challenges, row);
        lemma_fmul_zero(d);
    }
}

/// In a field, `in_set_poly` vanishes only where `item` takes the value of
/// an element of `set`.
pub proof fn lemma_in_set_only_members(
    item: Expr,
    set: Seq<Expr>,
    table: Seq<Seq<int>>,
    challenges: Seq<int>,
    row: int,
) -> (k: int)
    requires
        no_zero_divisors(),
        eval(in_set_poly(item, set), table, challenges, row) == 0,
    ensures
        0 <= k < set.len(),
        eval(item, table, challenges, row) == eval(set[k], table, challenges, row),
    decreases set.len(),
{
    reveal_with_fuel(eval, 4);
    if set.len() == 0 {
        Fe::lemma_of_int(1);
        assert(false);
        0
    } else {
        let last = set.last();
        let head = in_set_poly(item, set.drop_last());
        let h = eval(head, table, challenges, row);
        let d = eval(minus(item, last), table, challenges, row);
        lemma_eval_range(head, table, challenges, row);
        lemma_eval_range(minus(item, last), table, challenges, row);
        assert(fmul(h, d) == 0);
        if d == 0 {
            lemma_eval_range(item, table, challenges, row);
            lemma_eval_range(last, table, challenges, row);
            let x = eval(item, table, challenges, row);
            let y = eval(last, table, challenges, row);
            assert(d == (x + (-y) % (modulus() as int)) % (modulus() as int));
            vstd::arithmetic::div_mod::lemma_add_mod_noop_right(x, -y, modulus() as int);
            lemma_fsub_zero(x, y);
            set.len() - 1
        } else {
            lemma_in_set_only_members(item, set.drop_last(), table, challenges, row)
        }
    }
}

/// The degree of `in_set_poly` is `in_set_degree`.
pub proof fn lemma_in_set_degree(item: Expr, set: Seq<Expr>)
    ensures
        degree(in_set_poly(item, set)) == in_set_degree(item, set),
    decreases set.len(),
{
    if set.len() > 0 {
        lemma_in_set_degree(item, set.drop_last());
    }
}

/// A requirement under a condition of value one holds exactly where its
/// polynomial vanishes; under a condition of value zero it always holds.
pub proof fn law_conditioned(
    condition: Expr,
    e: Expr,
    table: Seq<Seq<int>>,
    challenges: Seq<int>,
    row: int,
)
    ensures
        eval(condition, table, challenges, row) == 1 ==> eval(
            times(condition, e),
            table,
            challenges,
            row,
        ) == eval(e, table, challenges, row),
        eval(condition, table, challenges, row) == 0 ==> eval(
            times(condition, e),
            table,
            challenges,
            row,
        ) == 0,
        degree(times(condition, e)) == degree(condition) + degree(e),
{
    lemma_eval_range(e, table, challenges, row);
    lemma_fmul_one(eval(e, table, challenges, row));
    lemma_fmul_zero(eval(e, table, challenges, row));
}

/// An equality holds exactly where the two sides take the same value.
pub proof fn lemma_equal(a: Expr, b: Expr, table: Seq<Seq<int>>, challenges: Seq<int>, row: int)
    ensures
        eval(minus(a, b), table, challenges, row) == 0 <==> eval(a, table, challenges, row)
            == eval(b, table, challenges, row),
{
    reveal_with_fuel(eval, 3);
    lemma_eval_range(a, table, challenges, row);
    lemma_eval_range(b, table, challenges, row);
    let x = eval(a, table, challenges, row);
    let y = eval(b, table, challenges, row);
    vstd::arithmetic::div_mod::lemma_add_mod_noop_right(x, -y, modulus() as int);
    lemma_fsub_zero(x, y);
}

/// `boolean_poly` vanishes on zero and on one; in a field, nowhere else.
pub proof fn lemma_boolean(e: Expr, table: Seq<Seq<int>>, challenges: Seq<int>, row: int)
    ensures
        eval(e, table, challenges, row) == 0 || eval(e, table, challenges, row) == 1 ==> eval(
            boolean_poly(e),
            table,
            challenges,
            row,
        ) == 0,
        no_zero_divisors() && eval(boolean_poly(e), table, challenges, row) == 0 ==> eval(
            e,
            table,
            challenges,
            row,
        ) == 0 || eval(e, table, challenges, row) == 1,
        degree(boolean_poly(e)) == 2 * degree(e),
{
    reveal_with_fuel(eval, 4);
    reveal_with_fuel(degree, 4);
    Fe::lemma_of_int(1);
    lemma_eval_range(e, table, challenges, row);
    let x = eval(e, table, challenges, row);
    let d = eval(minus(lit(1), e), table, challenges, row);
    lemma_equal(lit(1), e, table, challenges, row);
    lemma_fmul_zero(x);
    lemma_fmul_zero(d);
    lemma_eval_range(minus(lit(1), e), table, challenges, row);
}

impl Scope {
    /// The outermost scope, whose condition is one.
    pub fn root() -> (r: Scope)
        ensures
            r.condition == lit(1),
    {
        Scope { condition: Expr::from_u64(1) }
    }

    /// The scope nested in this one under the further condition `sub`.
    pub fn nest(&self, sub: Expr) -> (r: Scope)
        ensures
            r.condition == times(self.condition, sub),
    {
        Scope { condition: self.condition.dup().mul(sub) }
    }
}

/// What a builder has collected.
pub struct ConstraintBuilder {
    pub constraints: Vec<Constraint>,
    pub lookups: Vec<Lookup>,
}

impl ConstraintBuilder {
    /// A builder that holds nothing yet.
    pub fn new() -> (r: ConstraintBuilder)
        ensures
            r.constraints@ == Seq::<Constraint>::empty(),
            r.lookups@ == Seq::<Lookup>::empty(),
    {
        ConstraintBuilder { constraints: Vec::new(), lookups: Vec::new() }
    }

    /// Requires `e` to vanish where the scope's condition holds.
    pub fn require_zero(&mut self, scope: &Scope, name: &'static str, e: Expr)
        ensures
            final(self).constraints@ == old(self).constraints@.push(
                (name, times(scope.condition, e)),
            ),
            final(self).lookups@ == old(self).lookups@,
    {
        let c = scope.condition.dup().mul(e);
        self.constraints.push((name, c));
    }

    /// Requires `a` and `b` to agree where the scope's condition holds.
    pub fn require_equal(&mut self, scope: &Scope, name: &'static str, a: Expr, b: Expr)
        ensures
            final(self).constraints@ == old(self).constraints@.push(
                (name, times(scope.condition, minus(a, b))),
            ),
            final(self).lookups@ == old(self).lookups@,
    {
        self.require_zero(scope, name, a.sub(b));
    }

    /// Requires `e` to be zero or one where the scope's condition holds.
    pub fn require_boolean(&mut self, scope: &Scope, name: &'static str, e: Expr)
        ensures
            final(self).constraints@ == old(self).constraints@.push(
                (name, times(scope.condition, boolean_poly(e))),
            ),
            final(self).lookups@ == old(self).lookups@,
    {
        let x = e.dup();
        self.require_zero(scope, name, x.mul(Expr::from_u64(1).sub(e)));
    }

    /// Requires `item` to equal an element of `set` where the scope's
    /// condition holds.
    pub fn require_in_set(&mut self, scope: &Scope, name: &'static str, item: Expr, set: &Vec<Expr>)
        ensures
            final(self).constraints@ == old(self).constraints@.push(
                (name, times(scope.condition, in_set_poly(item, set@))),
            ),
            final(self).lookups@ == old(self).lookups@,
    {
        let mut acc = Expr::from_u64(1);
        let mut i: usize = 0;
        while i < set.len()
            invariant
                i <= set.len(),
                acc == in_set_poly(item, set@.take(i as int)),
            decreases set.len() - i,
        {
            proof {
                assert(set@.take(i + 1).drop_last() == set@.take(i as int));
            }
            acc = acc.mul(item.dup().sub(set[i].dup()));
            i = i + 1;
        }
        proof {
            assert(set@.take(i as int) == set@);
        }
        self.require_zero(scope, name, acc);
    }

    /// Adds a lookup whose input is gated by the scope's condition.
    pub fn add_lookup(&mut self, scope: &Scope, name: &'static str, lookup: (Expr, Expr))
        ensures
            final(self).lookups@ == old(self).lookups@.push(
                (name, (times(lookup.0, scope.condition), lookup.1)),
            ),
            final(self).constraints@ == old(self).constraints@,
    {
        let (input, table) = lookup;
        let gated_input = input.mul(scope.condition.dup());
        self.lookups.push((name, (gated_input, table)));
    }

    /// The constraints, each multiplied by the selector `condition`.
    pub fn gate(&self, condition: Expr) -> (r: Vec<Constraint>)
        ensures
            r@ == gated(self.constraints@, condition),
    {
        let mut out: Vec<Constraint> = Vec::new();
        let mut i: usize = 0;
        while i < self.constraints.len()
            invariant
                i <= self.constraints.len(),
                out@ == gated(self.constraints@.take(i as int), condition),
            decreases self.constraints.len() - i,
        {
            let name = self.constraints[i].0;
            let poly = condition.dup().mul(self.constraints[i].1.dup());
            out.push((name, poly));
            i = i + 1;
            proof {
                assert(out@ == gated(self.constraints@.take(i as int), condition));
            }
        }
        proof {
            assert(self.constraints@.take(i as int) == self.constraints@);
        }
        out
    }

    /// A copy of the lookups.
    pub fn lookups(&self) -> (r: Vec<Lookup>)
        ensures
            r@ == self.lookups@,
    {
        let mut out: Vec<Lookup> = Vec::new();
        let mut i: usize = 0;
        while i < self.lookups.len()
            invariant
                i <= self.lookups.len(),
                out@ == self.lookups@.take(i as int),
            decreases self.lookups.len() - i,
        {
            let name = self.lookups[i].0;
            let input = self.lookups[i].1.0.dup();
            let table = self.lookups[i].1.1.dup();
            out.push((name, (input, table)));
            i = i + 1;
            proof {
                assert(out@ == self.lookups@.take(i as int));
            }
        }
        proof {
            assert(self.lookups@.take(i as int) == self.lookups@);
        }
        out
    }
}

} // verus!
