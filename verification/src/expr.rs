//! Polynomial expressions over the cells of a table.
//!
//! An expression is a tree of constants, challenges and cell queries under
//! negation, sum, product and scaling. It is evaluated at a row of a table;
//! a query with a rotation reads the cell that many rows further on, the rows
//! being taken cyclically.

use crate::field::fadd;
use crate::field::fmul;
use crate::field::fred;
use crate::field::fsub;
use crate::field::Fe;
use vstd::prelude::*;

verus! {

/// A column of the table: its position in a row, and whether it is fixed by
/// the circuit or filled in by the prover.
#[derive(Clone, Copy, Debug, PartialEq, Eq, Structural)]
pub struct Column {
    pub index: usize,
    pub fixed: bool,
}

/// A polynomial over the cells of a table.
#[derive(Debug, PartialEq, Eq)]
pub enum Expr {
    /// A constant of the field.
    Constant(Fe),
    /// One of the verifier's challenges, by its number.
    Challenge(usize),
    /// A cell, `rotation` rows after the current one.
    Query(Column, i32),
    /// The additive inverse of a polynomial.
    Negated(Box<Expr>),
    /// The sum of two polynomials.
    Sum(Box<Expr>, Box<Expr>),
    /// The product of two polynomials.
    Product(Box<Expr>, Box<Expr>),
    /// A polynomial multiplied by a constant.
    Scaled(Box<Expr>, Fe),
}

/// A named polynomial that has to evaluate to zero.
pub type Constraint = (&'static str, Expr);

/// The canonical value of the cell at `row`, `column`; zero where the row has
/// no such column or the table no row.
pub open spec fn cell(table: Seq<Seq<int>>, row: int, column: int) -> int {
    if table.len() == 0 {
        0
    } else {
        let r = row % (table.len() as int);
        if 0 <= column < table[r].len() {
            fred(table[r][column])
        } else {
            0
        }
    }
}

/// The value of a polynomial at a row of a table, given the challenges.
pub open spec fn eval(e: Expr, table: Seq<Seq<int>>, challenges: Seq<int>, row: int) -> int
    decreases e,
{
    match e {
        Expr::Constant(c) => fred(c@),
        Expr::Challenge(i) => if i < challenges.len() {
            fred(challenges[i as int])
        } else {
            0
        },
        Expr::Query(column, rotation) => cell(table, row + rotation, column.index as int),
        Expr::Negated(a) => fsub(0, eval(*a, table, challenges, row)),
        Expr::Sum(a, b) => fadd(eval(*a, table, challenges, row), eval(*b, table, challenges, row)),
        Expr::Product(a, b) => fmul(
            eval(*a, table, challenges, row),
            eval(*b, table, challenges, row),
        ),
        Expr::Scaled(a, c) => fmul(eval(*a, table, challenges, row), c@),
    }
}

/// The degree of a polynomial in the cells: a query counts one, constants and
/// challenges nothing.
pub open spec fn degree(e: Expr) -> nat
    decreases e,
{
    match e {
        Expr::Constant(_) => 0,
        Expr::Challenge(_) => 0,
        Expr::Query(_, _) => 1,
        Expr::Negated(a) => degree(*a),
        Expr::Sum(a, b) => if degree(*a) >= degree(*b) {
            degree(*a)
        } else {
            degree(*b)
        },
        Expr::Product(a, b) => degree(*a) + degree(*b),
        Expr::Scaled(a, _) => degree(*a),
    }
}

/// `x`, or `cap` where `x` is larger.
pub open spec fn capped(x: nat, cap: nat) -> nat {
    if x <= cap {
        x
    } else {
        cap
    }
}

/// The constant polynomial of an integer.
pub open spec fn lit(x: int) -> Expr {
    Expr::Constant(Fe::of_int(x))
}

/// The query of a cell.
pub open spec fn cell_at(column: Column, rotation: int) -> Expr {
    Expr::Query(column, rotation as i32)
}

/// `a - b`, written as the sum of `a` and the negation of `b`.
pub open spec fn minus(a: Expr, b: Expr) -> Expr {
    Expr::Sum(Box::new(a), Box::new(Expr::Negated(Box::new(b))))
}

/// `a + b`.
pub open spec fn plus(a: Expr, b: Expr) -> Expr {
    Expr::Sum(Box::new(a), Box::new(b))
}

/// `a * b`.
pub open spec fn times(a: Expr, b: Expr) -> Expr {
    Expr::Product(Box::new(a), Box::new(b))
}

/// The views of the cells of a table.
pub open spec fn table_view(rows: Seq<Vec<Fe>>) -> Seq<Seq<int>> {
    Seq::new(rows.len(), |i: int| Seq::new(rows[i]@.len(), |j: int| rows[i]@[j]@))
}

/// The views of a list of field elements.
pub open spec fn values_view(values: Seq<Fe>) -> Seq<int> {
    Seq::new(values.len(), |i: int| values[i]@)
}

/// The row that lies `rotation` rows after `row` in a cyclic table of `n`
/// rows.
pub fn rotate(row: usize, rotation: i32, n: usize) -> (r: usize)
    requires
        0 < n,
    ensures
        r == (row + rotation) % (n as int),
{
    let nn: u128 = n as u128;
    if rotation >= 0 {
        let s: u128 = row as u128 + rotation as u128;
        (s % nn) as usize
    } else {
        let back: u128 = (-(rotation as i64)) as u128;
        let b: u128 = back % nn;
        let base: u128 = (row as u128) % nn;
        let s: u128 = base + nn - b;
        proof {
            let n_int = n as int;
            let q1 = (row as int) / n_int;
            let q2 = (back as int) / n_int;
            assert(row as int == n_int * q1 + base) by {
                vstd::arithmetic::div_mod::lemma_fundamental_div_mod(row as int, n_int);
            }
            assert(back as int == n_int * q2 + b) by {
                vstd::arithmetic::div_mod::lemma_fundamental_div_mod(back as int, n_int);
            }
            assert(row + rotation == s + n_int * (q1 - q2 - 1)) by (nonlinear_arith)
                requires
                    row as int == n_int * q1 + base,
                    back as int == n_int * q2 + b,
                    rotation as int == -(back as int),
                    s as int == base + n_int - b,
            ;
            vstd::arithmetic::div_mod::lemma_mod_multiples_vanish(
                q1 - q2 - 1,
                s as int,
                n_int,
            );
        }
        (s % nn) as usize
    }
}

impl Expr {
    /// A copy of the polynomial.
    pub fn dup(&self) -> (r: Expr)
        ensures
            r == *self,
        decreases *self,
    {
        match self {
            Expr::Constant(c) => Expr::Constant(*c),
            Expr::Challenge(i) => Expr::Challenge(*i),
            Expr::Query(column, rotation) => Expr::Query(*column, *rotation),
            Expr::Negated(a) => Expr::Negated(Box::new(a.dup())),
            Expr::Sum(a, b) => Expr::Sum(Box::new(a.dup()), Box::new(b.dup())),
            Expr::Product(a, b) => Expr::Product(Box::new(a.dup()), Box::new(b.dup())),
            Expr::Scaled(a, c) => Expr::Scaled(Box::new(a.dup()), *c),
        }
    }

    /// The constant polynomial of a 64-bit integer.
    pub fn from_u64(x: u64) -> (r: Expr)
        ensures
            r == lit(x as int),
    {
        Expr::Constant(Fe::from_u64(x))
    }

    /// The constant polynomial one for `true`, zero for `false`.
    pub fn from_bool(b: bool) -> (r: Expr)
        ensures
            r == lit(if b { 1int } else { 0int }),
    {
        Expr::Constant(Fe::from_bool(b))
    }

    /// The query of `column`, `rotation` rows after the current one.
    pub fn query(column: Column, rotation: i32) -> (r: Expr)
        ensures
            r == cell_at(column, rotation as int),
    {
        Expr::Query(column, rotation)
    }

    /// `self + rhs`.
    pub fn add(self, rhs: Expr) -> (r: Expr)
        ensures
            r == plus(self, rhs),
    {
        Expr::Sum(Box::new(self), Box::new(rhs))
    }

    /// `self - rhs`.
    pub fn sub(self, rhs: Expr) -> (r: Expr)
        ensures
            r == minus(self, rhs),
    {
        Expr::Sum(Box::new(self), Box::new(Expr::Negated(Box::new(rhs))))
    }

    /// `self * rhs`.
    pub fn mul(self, rhs: Expr) -> (r: Expr)
        ensures
            r == times(self, rhs),
    {
        Expr::Product(Box::new(self), Box::new(rhs))
    }

    /// `self` multiplied by the constant `c`.
    pub fn scale(self, c: Fe) -> (r: Expr)
        ensures
            r == Expr::Scaled(Box::new(self), c),
    {
        Expr::Scaled(Box::new(self), c)
    }

    /// The degree of the polynomial, or `None` where it does not fit the
    /// machine's integers.
    pub fn degree(&self) -> (r: Option<usize>)
        ensures
            r is Some <==> degree(*self) <= usize::MAX,
            r matches Some(d) ==> d == degree(*self),
        decreases *self,
    {
        match self {
            Expr::Constant(_) => Some(0),
            Expr::Challenge(_) => Some(0),
            Expr::Query(_, _) => Some(1),
            Expr::Negated(a) => a.degree(),
            Expr::Sum(a, b) => {
                match (a.degree(), b.degree()) {
                    (Some(x), Some(y)) => if x >= y {
                        Some(x)
                    } else {
                        Some(y)
                    },
                    _ => None,
                }
            },
            Expr::Product(a, b) => {
                match (a.degree(), b.degree()) {
                    (Some(x), Some(y)) => x.checked_add(y),
                    _ => None,
                }
            },
            Expr::Scaled(a, _) => a.degree(),
        }
    }

    /// The degree of the polynomial, or `cap` where it is higher.
    pub fn degree_capped(&self, cap: usize) -> (r: usize)
        ensures
            r == capped(degree(*self), cap as nat),
        decreases *self,
    {
        match self {
            Expr::Constant(_) => 0,
            Expr::Challenge(_) => 0,
            Expr::Query(_, _) => if cap >= 1 {
                1
            } else {
                cap
            },
            Expr::Negated(a) => a.degree_capped(cap),
            Expr::Sum(a, b) => {
                let x = a.degree_capped(cap);
                let y = b.degree_capped(cap);
                if x >= y {
                    x
                } else {
                    y
                }
            },
            Expr::Product(a, b) => {
                let x = a.degree_capped(cap);
                let y = b.degree_capped(cap);
                match x.checked_add(y) {
                    Some(s) => if s <= cap {
                        s
                    } else {
                        cap
                    },
                    None => cap,
                }
            },
            Expr::Scaled(a, _) => a.degree_capped(cap),
        }
    }

    /// The value of the polynomial at `row` of the table `rows`.
    pub fn evaluate(&self, rows: &Vec<Vec<Fe>>, challenges: &Vec<Fe>, row: usize) -> (r: Fe)
        ensures
            r@ == eval(*self, table_view(rows@), values_view(challenges@), row as int),
        decreases *self,
    {
        match self {
            Expr::Constant(c) => {
                let z = Fe::zero();
                c.add(&z)
            },
            Expr::Challenge(i) => {
                if *i < challenges.len() {
                    let z = Fe::zero();
                    challenges[*i].add(&z)
                } else {
                    Fe::zero()
                }
            },
            Expr::Query(column, rotation) => {
                if rows.len() == 0 {
                    Fe::zero()
                } else {
                    let at = rotate(row, *rotation, rows.len());
                    if column.index < rows[at].len() {
                        let z = Fe::zero();
                        rows[at][column.index].add(&z)
                    } else {
                        Fe::zero()
                    }
                }
            },
            Expr::Negated(a) => a.evaluate(rows, challenges, row).neg(),
            Expr::Sum(a, b) => {
                let x = a.evaluate(rows, challenges, row);
                let y = b.evaluate(rows, challenges, row);
                x.add(&y)
            },
            Expr::Product(a, b) => {
                let x = a.evaluate(rows, challenges, row);
                let y = b.evaluate(rows, challenges, row);
                x.mul(&y)
            },
            Expr::Scaled(a, c) => {
                let x = a.evaluate(rows, challenges, row);
                x.mul(c)
            },
        }
    }
}

} // verus!
