//! Boolean gadgets and the tag encoder.
//!
//! Each gadget adds cells of its own to a row, and a polynomial identity over
//! them that makes one expression a boolean: whether a value is zero, whether
//! two values agree, whether one is below the other, or which member of an
//! enumeration a number stands for.

use crate::expr::cell_at;
use crate::expr::lit;
use crate::expr::minus;
use crate::expr::plus;
use crate::expr::times;
use crate::expr::Column;
use crate::expr::Constraint;
use crate::expr::Expr;
use crate::constraint_builder::boolean_poly;
use crate::expr::values_view;
use crate::field::fadd;
use crate::field::finv_or_zero;
use crate::field::fmul;
use crate::field::fsub;
use crate::field::Fe;
use crate::plonk::set_cell;
use crate::util::and;
use crate::util::and_expr;
use crate::util::not;
use crate::util::not_expr;
use crate::plonk::ConstraintSystem;
use crate::plonk::ConstraintSystemView;
use crate::plonk::RangeLookup;
use crate::plonk::RangeTable;
use vstd::prelude::*;

verus! {

/// `1 - value * inverse`, which is one where `value` is zero, and zero where
/// `inverse` is the inverse of `value`.
pub open spec fn is_zero_expr(value: Expr, value_inv: Column, rotation: int) -> Expr {
    minus(lit(1), times(value, cell_at(value_inv, rotation)))
}

/// `q_enable * value * (1 - value * inverse)`.
pub open spec fn is_zero_poly(q_enable: Expr, value: Expr, value_inv: Column) -> Expr {
    times(times(q_enable, value), is_zero_expr(value, value_inv, 0))
}

/// Whether the value of a column is zero.
pub struct IsZeroConfig {
    pub value: Column,
    pub value_inv: Column,
}

impl IsZeroConfig {
    /// Adds the inverse's column and a gate that ties `expr` to the value
    /// on the rows where `q_enable` is one.
    pub fn configure(meta: &mut ConstraintSystem, q_enable: Expr, value: Column) -> (r:
        IsZeroConfig)
        requires
            old(meta).num_columns < usize::MAX,
        ensures
            r.value == value,
            r.value_inv == (Column { index: old(meta).num_columns, fixed: false }),
            final(meta)@ == (ConstraintSystemView {
                num_columns: old(meta)@.num_columns + 1,
                gates: old(meta)@.gates.push(
                    (
                        "is_zero gate",
                        seq![("", is_zero_poly(q_enable, cell_at(value, 0), r.value_inv))],
                    ),
                ),
                ..old(meta)@
            }),
    {
        let value_inv = meta.advice_column();
        let v = Expr::query(value, 0);
        let poly = q_enable.mul(v.dup()).mul(
            Expr::from_u64(1).sub(v.mul(Expr::query(value_inv, 0))),
        );
        let mut polys: Vec<Constraint> = Vec::new();
        polys.push(("", poly));
        meta.create_gate("is_zero gate", polys);
        IsZeroConfig { value, value_inv }
    }

    /// The boolean, read `rotation` rows after the current one.
    pub fn expr(&self, rotation: i32) -> (r: Expr)
        ensures
            r == is_zero_expr(cell_at(self.value, rotation as int), self.value_inv, rotation as int),
    {
        Expr::from_u64(1).sub(
            Expr::query(self.value, rotation).mul(Expr::query(self.value_inv, rotation)),
        )
    }

    /// Fills in the inverse of `value`, or zero where it has none.
    pub fn assign(&self, row: &mut Vec<Fe>, value: Fe)
        requires
            self.value_inv.index < old(row)@.len(),
        ensures
            final(row)@.len() == old(row)@.len(),
            values_view(final(row)@) == values_view(old(row)@).update(
                self.value_inv.index as int,
                finv_or_zero(value@),
            ),
    {
        let inv = value.invert_or_zero();
        set_cell(row, self.value_inv, inv);
    }
}

/// Whether two expressions take the same value.
pub struct IsEqualConfig {
    pub value_inv: Column,
    pub is_equal_expression: Expr,
}

impl IsEqualConfig {
    /// Adds the column of the inverse of `lhs - rhs` and a gate that ties
    /// `is_equal_expression` to the two values where `q_enable` is one.
    pub fn configure(meta: &mut ConstraintSystem, q_enable: Expr, lhs: Expr, rhs: Expr) -> (r:
        IsEqualConfig)
        requires
            old(meta).num_columns < usize::MAX,
        ensures
            r.value_inv == (Column { index: old(meta).num_columns, fixed: false }),
            r.is_equal_expression == is_zero_expr(minus(lhs, rhs), r.value_inv, 0),
            final(meta)@ == (ConstraintSystemView {
                num_columns: old(meta)@.num_columns + 1,
                gates: old(meta)@.gates.push(
                    ("is_zero gate", seq![("", is_zero_poly(q_enable, minus(lhs, rhs), r.value_inv))]),
                ),
                ..old(meta)@
            }),
    {
        let value_inv = meta.advice_column();
        let value = lhs.sub(rhs);
        let is_zero_expression = Expr::from_u64(1).sub(
            value.dup().mul(Expr::query(value_inv, 0)),
        );
        let poly = q_enable.mul(value).mul(is_zero_expression.dup());
        let mut polys: Vec<Constraint> = Vec::new();
        polys.push(("", poly));
        meta.create_gate("is_zero gate", polys);
        IsEqualConfig { value_inv, is_equal_expression: is_zero_expression }
    }

    /// The boolean on the current row.
    pub fn expr(&self) -> (r: Expr)
        ensures
            r == self.is_equal_expression,
    {
        self.is_equal_expression.dup()
    }

    /// Fills in the inverse of `lhs - rhs`, or zero where the two agree.
    pub fn assign(&self, row: &mut Vec<Fe>, lhs: Fe, rhs: Fe)
        requires
            self.value_inv.index < old(row)@.len(),
        ensures
            final(row)@.len() == old(row)@.len(),
            values_view(final(row)@) == values_view(old(row)@).update(
                self.value_inv.index as int,
                finv_or_zero(fsub(lhs@, rhs@)),
            ),
    {
        let inv = lhs.sub(&rhs).invert_or_zero();
        set_cell(row, self.value_inv, inv);
    }
}

/// 256 to the power `n`, in the field.
pub open spec fn fpow256(n: nat) -> int
    decreases n,
{
    if n == 0 {
        1
    } else {
        fmul(fpow256((n - 1) as nat), 256)
    }
}

/// 256 to the power `n`.
pub open spec fn pow256(n: nat) -> int
    decreases n,
{
    if n == 0 {
        1
    } else {
        pow256((n - 1) as nat) * 256
    }
}

/// The number that the cells of `bytes` spell, little-endian: the sum of
/// each cell scaled by its power of 256.
pub open spec fn from_bytes_expr(bytes: Seq<Column>, rotation: int) -> Expr
    decreases bytes.len(),
{
    if bytes.len() == 0 {
        lit(0)
    } else {
        plus(
            from_bytes_expr(bytes.drop_last(), rotation),
            Expr::Scaled(
                Box::new(cell_at(bytes.last(), rotation)),
                Fe::of_int(fpow256((bytes.len() - 1) as nat)),
            ),
        )
    }
}

/// `lhs - rhs - diff + lt * range`, which vanishes where `diff` is the
/// difference of the two, raised by `range` where `lt` is one.
pub open spec fn lt_check(lhs: Expr, rhs: Expr, lt: Column, diff: Seq<Column>) -> Expr {
    plus(
        minus(minus(lhs, rhs), from_bytes_expr(diff, 0)),
        Expr::Scaled(Box::new(cell_at(lt, 0)), Fe::of_int(fpow256(diff.len()))),
    )
}

/// The two polynomials of the comparison gate.
pub open spec fn lt_polys(q_enable: Expr, lhs: Expr, rhs: Expr, lt: Column, diff: Seq<Column>) -> Seq<
    Constraint,
> {
    seq![
        ("", times(q_enable, lt_check(lhs, rhs, lt, diff))),
        ("", times(q_enable, boolean_poly(cell_at(lt, 0)))),
    ]
}

/// The range checks of the bytes of the difference, up to the byte `n`.
pub open spec fn lt_ranges(q_enable: Expr, diff: Seq<Column>, table: RangeTable, n: nat) -> Seq<
    RangeLookup,
> {
    Seq::new(
        n,
        |i: int|
            RangeLookup {
                name: "range check for u8",
                input: times(q_enable, cell_at(diff[i], 0)),
                table,
            },
    )
}

/// The numbers below `n`, in rising order.
pub open spec fn first_indices(n: nat) -> Seq<u64> {
    Seq::new(n, |i: int| i as u64)
}

/// `n` columns following one another from `first` on.
pub open spec fn columns_from(first: nat, n: nat) -> Seq<Column> {
    Seq::new(n, |i: int| Column { index: (first + i) as usize, fixed: false })
}

/// The byte `i` of the little-endian representation of a 64-bit integer.
pub open spec fn byte_of(x: int, i: nat) -> int {
    (x / pow256(i)) % 256
}

/// The difference that the comparison of `lhs` with `rhs` fills in: `lhs -
/// rhs`, raised by 256 to the power `n` where `lhs` is the smaller.
pub open spec fn lt_diff(lhs: int, rhs: int, n: nat) -> int {
    fadd(
        fsub(lhs, rhs),
        if lhs < rhs {
            fpow256(n)
        } else {
            0
        },
    )
}

/// The row after the comparison filled in its cells up to the byte `n`.
pub open spec fn lt_filled(row: Seq<int>, lt: Column, diff: Seq<Column>, lhs: int, rhs: int, n: nat) -> Seq<
    int,
>
    decreases n,
{
    if n == 0 {
        row.update(
            lt.index as int,
            if lhs < rhs {
                1int
            } else {
                0int
            },
        )
    } else {
        lt_filled(row, lt, diff, lhs, rhs, (n - 1) as nat).update(
            diff[n - 1].index as int,
            byte_of(lt_diff(lhs, rhs, diff.len()) % 0x1_0000_0000_0000_0000int, (n - 1) as nat),
        )
    }
}

/// Whether one value is below another, for values whose difference has at
/// most `diff.len()` bytes.
pub struct LtConfig {
    pub lt: Column,
    pub diff: Vec<Column>,
    pub u8_table: RangeTable,
    pub range: Fe,
}

/// 256 to the power `n` as a field element.
fn range_of(n: usize) -> (r: Fe)
    ensures
        r@ == fpow256(n as nat),
        r == Fe::of_int(fpow256(n as nat)),
{
    let mut r = Fe::one();
    let step = Fe::from_u64(256);
    let mut i: usize = 0;
    while i < n
        invariant
            i <= n,
            step@ == 256,
            r@ == fpow256(i as nat),
        decreases n - i,
    {
        r = r.mul(&step);
        i = i + 1;
    }
    proof {
        Fe::lemma_of_view(r);
    }
    r
}

impl LtConfig {
    /// Adds the column of the result, the columns of the bytes of the
    /// difference, a gate that ties them to `lhs` and `rhs` where
    /// `q_enable` is one, and the range check of each byte.
    pub fn configure(
        meta: &mut ConstraintSystem,
        q_enable: Expr,
        lhs: Expr,
        rhs: Expr,
        u8_table: RangeTable,
        n_bytes: usize,
    ) -> (r: LtConfig)
        requires
            old(meta).num_columns + 1 + n_bytes <= usize::MAX,
        ensures
            r.lt == (Column { index: old(meta).num_columns, fixed: false }),
            r.diff@ == columns_from(old(meta)@.num_columns + 1, n_bytes as nat),
            r.u8_table == u8_table,
            r.range@ == fpow256(n_bytes as nat),
            final(meta)@ == (ConstraintSystemView {
                num_columns: (old(meta)@.num_columns + 1 + n_bytes) as nat,
                gates: old(meta)@.gates.push(("lt gate", lt_polys(q_enable, lhs, rhs, r.lt, r.diff@))),
                ranges: old(meta)@.ranges + lt_ranges(q_enable, r.diff@, u8_table, n_bytes as nat),
                ..old(meta)@
            }),
    {
        let lt = meta.advice_column();
        let mut diff: Vec<Column> = Vec::new();
        let mut i: usize = 0;
        while i < n_bytes
            invariant
                i <= n_bytes,
                old(meta).num_columns + 1 + n_bytes <= usize::MAX,
                diff@ == columns_from(old(meta)@.num_columns + 1, i as nat),
                meta@ == (ConstraintSystemView {
                    num_columns: (old(meta)@.num_columns + 1 + i) as nat,
                    ..old(meta)@
                }),
            decreases n_bytes - i,
        {
            let c = meta.advice_column();
            diff.push(c);
            i = i + 1;
            proof {
                assert(diff@ =~= columns_from(old(meta)@.num_columns + 1, i as nat));
            }
        }
        let range = range_of(n_bytes);
        // The bytes of the difference as one number.
        let mut value = Expr::from_u64(0);
        let mut multiplier = Fe::one();
        let step = Fe::from_u64(256);
        let mut k: usize = 0;
        while k < n_bytes
            invariant
                k <= n_bytes,
                diff@.len() == n_bytes,
                step@ == 256,
                multiplier@ == fpow256(k as nat),
                value == from_bytes_expr(diff@.take(k as int), 0),
            decreases n_bytes - k,
        {
            proof {
                assert(diff@.take(k + 1).drop_last() == diff@.take(k as int));
                Fe::lemma_of_view(multiplier);
            }
            value = value.add(Expr::query(diff[k], 0).scale(multiplier));
            multiplier = multiplier.mul(&step);
            k = k + 1;
        }
        proof {
            assert(diff@.take(k as int) == diff@);
        }
        let check_a = lhs.sub(rhs).sub(value).add(Expr::query(lt, 0).scale(range));
        let l = Expr::query(lt, 0);
        let check_b = l.dup().mul(Expr::from_u64(1).sub(l));
        let mut polys: Vec<Constraint> = Vec::new();
        polys.push(("", q_enable.dup().mul(check_a)));
        polys.push(("", q_enable.dup().mul(check_b)));
        proof {
            assert(check_a == lt_check(lhs, rhs, lt, diff@));
            assert(check_b == boolean_poly(cell_at(lt, 0)));
            assert(polys@ =~= lt_polys(q_enable, lhs, rhs, lt, diff@));
        }
        meta.create_gate("lt gate", polys);
        let ghost after_gate = meta@;
        proof {
            assert(after_gate.ranges + lt_ranges(q_enable, diff@, u8_table, 0) =~= after_gate.ranges);
        }
        let mut j: usize = 0;
        while j < n_bytes
            invariant
                j <= n_bytes,
                diff@.len() == n_bytes,
                meta@ == (ConstraintSystemView {
                    ranges: after_gate.ranges + lt_ranges(q_enable, diff@, u8_table, j as nat),
                    ..after_gate
                }),
            decreases n_bytes - j,
        {
            meta.lookup("range check for u8", q_enable.dup().mul(Expr::query(diff[j], 0)), u8_table);
            j = j + 1;
            proof {
                assert(meta@.ranges =~= after_gate.ranges + lt_ranges(
                    q_enable,
                    diff@,
                    u8_table,
                    j as nat,
                ));
            }
        }
        LtConfig { lt, diff, u8_table, range }
    }

    /// The result, read `rotation` rows after the current one.
    pub fn is_lt(&self, rotation: i32) -> (r: Expr)
        ensures
            r == cell_at(self.lt, rotation as int),
    {
        Expr::query(self.lt, rotation)
    }

    /// Fills in the result and the bytes of the difference.
    pub fn assign(&self, row: &mut Vec<Fe>, lhs: Fe, rhs: Fe)
        requires
            self.diff@.len() <= 8,
            self.range@ == fpow256(self.diff@.len()),
            self.lt.index < old(row)@.len(),
            forall|i: int| 0 <= i < self.diff@.len() ==> (#[trigger] self.diff@[i]).index < old(row)@.len(),
        ensures
            final(row)@.len() == old(row)@.len(),
            values_view(final(row)@) == lt_filled(
                values_view(old(row)@),
                self.lt,
                self.diff@,
                lhs@,
                rhs@,
                self.diff@.len(),
            ),
    {
        let lt = lhs.lt(&rhs);
        set_cell(row, self.lt, Fe::from_bool(lt));
        let bump = if lt {
            self.range
        } else {
            Fe::zero()
        };
        let diff = lhs.sub(&rhs).add(&bump);
        let low: u64 = diff.low_u64();
        let mut shifted: u64 = low;
        let mut idx: usize = 0;
        while idx < self.diff.len()
            invariant
                idx <= self.diff@.len(),
                self.diff@.len() <= 8,
                row@.len() == old(row)@.len(),
                forall|i: int|
                    0 <= i < self.diff@.len() ==> (#[trigger] self.diff@[i]).index < row@.len(),
                low == lt_diff(lhs@, rhs@, self.diff@.len()) % 0x1_0000_0000_0000_0000int,
                shifted == (low as int) / pow256(idx as nat),
                values_view(row@) == lt_filled(
                    values_view(old(row)@),
                    self.lt,
                    self.diff@,
                    lhs@,
                    rhs@,
                    idx as nat,
                ),
            decreases self.diff@.len() - idx,
        {
            let byte: u64 = shifted % 256;
            set_cell(row, self.diff[idx], Fe::from_u64(byte));
            proof {
                let p = pow256(idx as nat);
                assert(p > 0) by {
                    lemma_pow256_positive(idx as nat);
                }
                vstd::arithmetic::div_mod::lemma_div_denominator(low as int, p, 256);
                assert((low as int / p) / 256 == low as int / (p * 256));
            }
            shifted = shifted / 256;
            idx = idx + 1;
        }
    }
}

/// Powers of 256 are positive.
pub proof fn lemma_pow256_positive(n: nat)
    ensures
        pow256(n) > 0,
    decreases n,
{
    if n > 0 {
        lemma_pow256_positive((n - 1) as nat);
    }
}

/// Whether one value is below another, and whether the two agree.
pub struct ComparatorConfig {
    pub lt_chip: LtConfig,
    pub eq_chip: IsEqualConfig,
}

impl ComparatorConfig {
    /// Adds a comparison and an equality test of `lhs` and `rhs`.
    pub fn configure(
        meta: &mut ConstraintSystem,
        q_enable: Expr,
        lhs: Expr,
        rhs: Expr,
        u8_table: RangeTable,
        n_bytes: usize,
    ) -> (r: ComparatorConfig)
        requires
            old(meta).num_columns + 2 + n_bytes <= usize::MAX,
        ensures
            r.lt_chip.lt == (Column { index: old(meta).num_columns, fixed: false }),
            r.lt_chip.diff@ == columns_from(old(meta)@.num_columns + 1, n_bytes as nat),
            r.lt_chip.u8_table == u8_table,
            r.lt_chip.range@ == fpow256(n_bytes as nat),
            r.eq_chip.value_inv == (Column {
                index: (old(meta).num_columns + 1 + n_bytes) as usize,
                fixed: false,
            }),
            r.eq_chip.is_equal_expression == is_zero_expr(minus(lhs, rhs), r.eq_chip.value_inv, 0),
            final(meta)@ == (ConstraintSystemView {
                num_columns: (old(meta)@.num_columns + 2 + n_bytes) as nat,
                gates: old(meta)@.gates.push(
                    ("lt gate", lt_polys(q_enable, lhs, rhs, r.lt_chip.lt, r.lt_chip.diff@)),
                ).push(
                    (
                        "is_zero gate",
                        seq![("", is_zero_poly(q_enable, minus(lhs, rhs), r.eq_chip.value_inv))],
                    ),
                ),
                ranges: old(meta)@.ranges + lt_ranges(
                    q_enable,
                    r.lt_chip.diff@,
                    u8_table,
                    n_bytes as nat,
                ),
                ..old(meta)@
            }),
    {
        let lt_chip = LtConfig::configure(
            meta,
            q_enable.dup(),
            lhs.dup(),
            rhs.dup(),
            u8_table,
            n_bytes,
        );
        let eq_chip = IsEqualConfig::configure(meta, q_enable, lhs, rhs);
        ComparatorConfig { lt_chip, eq_chip }
    }

    /// The two booleans: below, read `rotation` rows after the current one,
    /// and equal, on the current row.
    pub fn expr(&self, rotation: i32) -> (r: (Expr, Expr))
        ensures
            r.0 == cell_at(self.lt_chip.lt, rotation as int),
            r.1 == self.eq_chip.is_equal_expression,
    {
        (self.lt_chip.is_lt(rotation), self.eq_chip.expr())
    }

    /// Fills in the cells of the comparison and of the equality test.
    pub fn assign(&self, row: &mut Vec<Fe>, lhs: Fe, rhs: Fe)
        requires
            self.lt_chip.diff@.len() <= 8,
            self.lt_chip.range@ == fpow256(self.lt_chip.diff@.len()),
            self.lt_chip.lt.index < old(row)@.len(),
            self.eq_chip.value_inv.index < old(row)@.len(),
            forall|i: int|
                0 <= i < self.lt_chip.diff@.len() ==> (#[trigger] self.lt_chip.diff@[i]).index
                    < old(row)@.len(),
        ensures
            final(row)@.len() == old(row)@.len(),
            values_view(final(row)@) == lt_filled(
                values_view(old(row)@),
                self.lt_chip.lt,
                self.lt_chip.diff@,
                lhs@,
                rhs@,
                self.lt_chip.diff@.len(),
            ).update(self.eq_chip.value_inv.index as int, finv_or_zero(fsub(lhs@, rhs@))),
    {
        self.lt_chip.assign(row, lhs, rhs);
        self.eq_chip.assign(row, lhs, rhs);
    }
}

/// `x` halved `k` times.
pub open spec fn halved(x: nat, k: nat) -> nat
    decreases k,
{
    if k == 0 {
        x
    } else {
        halved(x, (k - 1) as nat) / 2
    }
}

/// The binary digit of `x` at the place `k`, the lowest place being zero.
pub open spec fn bit_at(x: nat, k: nat) -> bool {
    halved(x, k) % 2 == 1
}

/// The number that the cells of `bits` spell, the highest place first:
/// each cell added to twice what precedes it.
pub open spec fn bits_value_expr(bits: Seq<Column>, rotation: int) -> Expr
    decreases bits.len(),
{
    if bits.len() == 0 {
        lit(0)
    } else {
        plus(
            cell_at(bits.last(), rotation),
            times(bits_value_expr(bits.drop_last(), rotation), lit(2)),
        )
    }
}

/// For each place, from the highest down, the cell where `value` has the
/// digit one there, and one minus the cell where it has zero.
pub open spec fn digit_terms(bits: Seq<Column>, value: nat, rotation: int) -> Seq<Expr> {
    Seq::new(
        bits.len(),
        |i: int|
            if bit_at(value, (bits.len() - 1 - i) as nat) {
                cell_at(bits[i], rotation)
            } else {
                not_expr(cell_at(bits[i], rotation))
            },
    )
}

/// The indicator of `value`: the product of its digit terms.
pub open spec fn value_equals_expr(bits: Seq<Column>, value: nat, rotation: int) -> Expr {
    and_expr(digit_terms(bits, value, rotation))
}

/// For each number below `m` that is not in `valid`, in rising order, the
/// selector times the number's indicator.
pub open spec fn out_of_range_polys(selector: Expr, bits: Seq<Column>, valid: Seq<u64>, m: nat) -> Seq<
    Constraint,
>
    decreases m,
{
    if m == 0 {
        Seq::empty()
    } else {
        let rest = out_of_range_polys(selector, bits, valid, (m - 1) as nat);
        if valid.contains((m - 1) as u64) {
            rest
        } else {
            rest.push(("", times(selector, value_equals_expr(bits, (m - 1) as nat, 0))))
        }
    }
}

/// One gate for each bit, up to the bit `n`, that makes it zero or one.
pub open spec fn bit_gates(
    gates: Seq<crate::plonk::GateView>,
    selector: Column,
    bits: Seq<Column>,
    n: nat,
) -> Seq<crate::plonk::GateView>
    decreases n,
{
    if n == 0 {
        gates
    } else {
        bit_gates(gates, selector, bits, (n - 1) as nat).push(
            (
                "bit column is 0 or 1",
                seq![
                    (
                        "",
                        times(
                            times(cell_at(selector, 0), cell_at(bits[n - 1], 0)),
                            minus(lit(1), cell_at(bits[n - 1], 0)),
                        ),
                    ),
                ],
            ),
        )
    }
}

/// The gates of a tag encoder: one for each bit; one that ties the number
/// that the bits spell to the cell of `value`, where there is one; and one
/// that excludes the numbers that stand for no member, where there are any.
pub open spec fn binary_number_gates(
    gates: Seq<crate::plonk::GateView>,
    selector: Column,
    value: Option<Column>,
    bits: Seq<Column>,
    valid: Seq<u64>,
) -> Seq<crate::plonk::GateView> {
    let g1 = bit_gates(gates, selector, bits, bits.len());
    let g2 = match value {
        Some(v) => g1.push(
            (
                "binary number value",
                seq![
                    (
                        "",
                        times(cell_at(selector, 0), minus(bits_value_expr(bits, 0), cell_at(v, 0))),
                    ),
                ],
            ),
        ),
        None => g1,
    };
    let polys = out_of_range_polys(cell_at(selector, 0), bits, valid, pow2(bits.len()));
    if polys.len() > 0 {
        g2.push(("binary number value in range", polys))
    } else {
        g2
    }
}

/// Two to the power `n`.
pub open spec fn pow2(n: nat) -> nat
    decreases n,
{
    if n == 0 {
        1
    } else {
        2 * pow2((n - 1) as nat)
    }
}

/// The row after the digits of `value` were filled in, from the highest
/// place down to the place `bits.len() - n`.
pub open spec fn bits_filled(row: Seq<int>, bits: Seq<Column>, value: nat, n: nat) -> Seq<int>
    decreases n,
{
    if n == 0 {
        row
    } else {
        bits_filled(row, bits, value, (n - 1) as nat).update(
            bits[n - 1].index as int,
            if bit_at(value, (bits.len() - n) as nat) {
                1int
            } else {
                0int
            },
        )
    }
}

/// The tag encoder: the binary digits of the number of a member of an
/// enumeration, the highest place first.
pub struct BinaryNumberConfig {
    pub bits: Vec<Column>,
}

/// The binary digits of `value` at the places below `n`, the lowest first.
fn digits_of(value: u64, n: usize) -> (r: Vec<bool>)
    ensures
        r@.len() == n,
        forall|k: int| 0 <= k < n ==> #[trigger] r@[k] == bit_at(value as nat, k as nat),
{
    let mut out: Vec<bool> = Vec::new();
    let mut x: u64 = value;
    let mut k: usize = 0;
    while k < n
        invariant
            k <= n,
            out@.len() == k,
            x == halved(value as nat, k as nat),
            forall|kk: int| 0 <= kk < k ==> #[trigger] out@[kk] == bit_at(value as nat, kk as nat),
        decreases n - k,
    {
        out.push(x % 2 == 1);
        x = x / 2;
        k = k + 1;
    }
    out
}

impl BinaryNumberConfig {
    /// Adds one column for each binary digit and the gates of the encoder.
    /// `valid` lists the numbers that stand for a member of the enumeration.
    pub fn configure(
        meta: &mut ConstraintSystem,
        selector: Column,
        value: Option<Column>,
        n_bits: usize,
        valid: &Vec<u64>,
    ) -> (r: BinaryNumberConfig)
        requires
            n_bits < 64,
            old(meta).num_columns + n_bits <= usize::MAX,
        ensures
            r.bits@ == columns_from(old(meta)@.num_columns, n_bits as nat),
            final(meta)@ == (ConstraintSystemView {
                num_columns: (old(meta)@.num_columns + n_bits) as nat,
                gates: binary_number_gates(old(meta)@.gates, selector, value, r.bits@, valid@),
                ..old(meta)@
            }),
    {
        let mut bits: Vec<Column> = Vec::new();
        let mut i: usize = 0;
        while i < n_bits
            invariant
                i <= n_bits,
                old(meta).num_columns + n_bits <= usize::MAX,
                bits@ == columns_from(old(meta)@.num_columns, i as nat),
                meta@ == (ConstraintSystemView {
                    num_columns: (old(meta)@.num_columns + i) as nat,
                    ..old(meta)@
                }),
            decreases n_bits - i,
        {
            let c = meta.advice_column();
            bits.push(c);
            i = i + 1;
            proof {
                assert(bits@ =~= columns_from(old(meta)@.num_columns, i as nat));
            }
        }
        let ghost base = meta@;
        let mut b: usize = 0;
        while b < n_bits
            invariant
                b <= n_bits,
                bits@.len() == n_bits,
                meta@ == (ConstraintSystemView {
                    gates: bit_gates(old(meta)@.gates, selector, bits@, b as nat),
                    ..base
                }),
                base.gates == old(meta)@.gates,
            decreases n_bits - b,
        {
            let s = Expr::query(selector, 0);
            let bit = Expr::query(bits[b], 0);
            let mut polys: Vec<Constraint> = Vec::new();
            polys.push(("", s.mul(bit.dup()).mul(Expr::from_u64(1).sub(bit))));
            meta.create_gate("bit column is 0 or 1", polys);
            b = b + 1;
        }
        let config = BinaryNumberConfig { bits };
        match value {
            Some(v) => {
                let mut polys: Vec<Constraint> = Vec::new();
                polys.push(
                    ("", Expr::query(selector, 0).mul(config.value(0).sub(Expr::query(v, 0)))),
                );
                meta.create_gate("binary number value", polys);
            },
            None => {},
        }
        let ghost g2 = meta@.gates;
        let limit: u64 = 1u64 << (n_bits as u64);
        proof {
            lemma_shift_is_pow2(n_bits as nat);
        }
        let mut polys: Vec<Constraint> = Vec::new();
        let mut m: u64 = 0;
        while m < limit
            invariant
                m <= limit,
                config.bits@.len() == n_bits,
                polys@ == out_of_range_polys(cell_at(selector, 0), config.bits@, valid@, m as nat),
            decreases limit - m,
        {
            if !contains(valid, m) {
                let indicator = config.value_equals(m, 0);
                polys.push(("", Expr::query(selector, 0).mul(indicator)));
            }
            m = m + 1;
        }
        if polys.len() > 0 {
            meta.create_gate("binary number value in range", polys);
        }
        config
    }

    /// The number that the digits spell, read `rotation` rows after the
    /// current one.
    pub fn value(&self, rotation: i32) -> (r: Expr)
        ensures
            r == bits_value_expr(self.bits@, rotation as int),
    {
        let mut acc = Expr::from_u64(0);
        let mut i: usize = 0;
        while i < self.bits.len()
            invariant
                i <= self.bits@.len(),
                acc == bits_value_expr(self.bits@.take(i as int), rotation as int),
            decreases self.bits@.len() - i,
        {
            proof {
                assert(self.bits@.take(i + 1).drop_last() == self.bits@.take(i as int));
            }
            acc = Expr::query(self.bits[i], rotation).add(acc.mul(Expr::from_u64(2)));
            i = i + 1;
        }
        proof {
            assert(self.bits@.take(i as int) == self.bits@);
        }
        acc
    }

    /// The indicator of `value`: an expression that is one on the rows whose
    /// digits spell `value` and zero on the others.
    pub fn value_equals(&self, value: u64, rotation: i32) -> (r: Expr)
        ensures
            r == value_equals_expr(self.bits@, value as nat, rotation as int),
    {
        let n = self.bits.len();
        let digits = digits_of(value, n);
        let mut terms: Vec<Expr> = Vec::new();
        let mut i: usize = 0;
        while i < n
            invariant
                i <= n,
                n == self.bits@.len(),
                digits@.len() == n,
                forall|k: int| 0 <= k < n ==> #[trigger] digits@[k] == bit_at(value as nat, k as nat),
                terms@ == digit_terms(self.bits@, value as nat, rotation as int).take(i as int),
            decreases n - i,
        {
            let cell = Expr::query(self.bits[i], rotation);
            let term = if digits[n - 1 - i] {
                cell
            } else {
                not(cell)
            };
            terms.push(term);
            i = i + 1;
            proof {
                assert(terms@ =~= digit_terms(self.bits@, value as nat, rotation as int).take(
                    i as int,
                ));
            }
        }
        proof {
            let all = digit_terms(self.bits@, value as nat, rotation as int);
            assert(all.take(n as int) == all);
        }
        and(&terms)
    }

    /// Fills in the digits of `value`.
    pub fn assign(&self, row: &mut Vec<Fe>, value: u64)
        requires
            forall|i: int| 0 <= i < self.bits@.len() ==> (#[trigger] self.bits@[i]).index < old(row)@.len(),
        ensures
            final(row)@.len() == old(row)@.len(),
            values_view(final(row)@) == bits_filled(
                values_view(old(row)@),
                self.bits@,
                value as nat,
                self.bits@.len(),
            ),
    {
        let n = self.bits.len();
        let digits = digits_of(value, n);
        let mut i: usize = 0;
        while i < n
            invariant
                i <= n,
                n == self.bits@.len(),
                digits@.len() == n,
                row@.len() == old(row)@.len(),
                forall|k: int| 0 <= k < n ==> (#[trigger] self.bits@[k]).index < row@.len(),
                forall|k: int| 0 <= k < n ==> #[trigger] digits@[k] == bit_at(value as nat, k as nat),
                values_view(row@) == bits_filled(
                    values_view(old(row)@),
                    self.bits@,
                    value as nat,
                    i as nat,
                ),
            decreases n - i,
        {
            set_cell(row, self.bits[i], Fe::from_bool(digits[n - 1 - i]));
            i = i + 1;
        }
    }
}

/// Whether `x` occurs in `list`.
pub fn contains(list: &Vec<u64>, x: u64) -> (r: bool)
    ensures
        r == list@.contains(x),
{
    let mut i: usize = 0;
    while i < list.len()
        invariant
            i <= list.len(),
            forall|k: int| 0 <= k < i ==> list@[k] != x,
        decreases list.len() - i,
    {
        if list[i] == x {
            return true;
        }
        i = i + 1;
    }
    false
}

/// Shifting one to the left by `n` places gives two to the power `n`.
pub proof fn lemma_shift_is_pow2(n: nat)
    requires
        n < 64,
    ensures
        (1u64 << (n as u64)) == pow2(n),
    decreases n,
{
    if n == 0 {
        assert((1u64 << 0u64) == 1) by (bit_vector);
    } else {
        lemma_shift_is_pow2((n - 1) as nat);
        let a = (n - 1) as u64;
        let b = n as u64;
        assert((1u64 << b) == 2 * (1u64 << a)) by (bit_vector)
            requires
                b == a + 1,
                b < 64,
        ;
    }
}

/// Filling in the digits changes the cells of the digits and no other.
pub proof fn lemma_bits_filled(row: Seq<int>, bits: Seq<Column>, value: nat, n: nat)
    requires
        n <= bits.len(),
        forall|i: int| 0 <= i < bits.len() ==> (#[trigger] bits[i]).index < row.len(),
    ensures
        bits_filled(row, bits, value, n).len() == row.len(),
        forall|k: int|
            0 <= k < row.len() && (forall|i: int| 0 <= i < n ==> k != (#[trigger] bits[i]).index)
                ==> #[trigger] bits_filled(row, bits, value, n)[k] == row[k],
    decreases n,
{
    if n > 0 {
        lemma_bits_filled(row, bits, value, (n - 1) as nat);
        let before = bits_filled(row, bits, value, (n - 1) as nat);
        assert forall|k: int|
            0 <= k < row.len() && (forall|i: int|
                0 <= i < n ==> k != (#[trigger] bits[i]).index) implies #[trigger] bits_filled(
            row,
            bits,
            value,
            n,
        )[k] == row[k] by {
            assert(k != bits[n - 1].index);
            assert(before[k] == row[k]);
        }
    }
}

/// Filling in a comparison changes the cell of the result and the cells of
/// the bytes of the difference, and no other.
pub proof fn lemma_lt_filled(row: Seq<int>, lt: Column, diff: Seq<Column>, lhs: int, rhs: int, n: nat)
    requires
        n <= diff.len(),
        lt.index < row.len(),
        forall|i: int| 0 <= i < diff.len() ==> (#[trigger] diff[i]).index < row.len(),
    ensures
        lt_filled(row, lt, diff, lhs, rhs, n).len() == row.len(),
        forall|k: int|
            0 <= k < row.len() && k != lt.index && (forall|i: int|
                0 <= i < n ==> k != (#[trigger] diff[i]).index) ==> #[trigger] lt_filled(
                row,
                lt,
                diff,
                lhs,
                rhs,
                n,
            )[k] == row[k],
    decreases n,
{
    if n > 0 {
        lemma_lt_filled(row, lt, diff, lhs, rhs, (n - 1) as nat);
        let before = lt_filled(row, lt, diff, lhs, rhs, (n - 1) as nat);
        assert forall|k: int|
            0 <= k < row.len() && k != lt.index && (forall|i: int|
                0 <= i < n ==> k != (#[trigger] diff[i]).index) implies #[trigger] lt_filled(
            row,
            lt,
            diff,
            lhs,
            rhs,
            n,
        )[k] == row[k] by {
            assert(k != diff[n - 1].index);
            assert(before[k] == row[k]);
        }
    }
}

/// The binary digit of `x` at the place `k` as a number.
pub open spec fn digit(x: nat, k: nat) -> int {
    if bit_at(x, k) {
        1
    } else {
        0
    }
}

/// The cells of the digits hold the digits that were filled in.
pub proof fn lemma_bits_filled_digits(row: Seq<int>, bits: Seq<Column>, value: nat, n: nat, i: int)
    requires
        n <= bits.len(),
        0 <= i < n,
        forall|a: int| 0 <= a < bits.len() ==> (#[trigger] bits[a]).index < row.len(),
        forall|a: int, b: int| 0 <= a < b < bits.len() ==> bits[a].index != bits[b].index,
    ensures
        bits_filled(row, bits, value, n)[bits[i].index as int] == digit(
            value,
            (bits.len() - 1 - i) as nat,
        ),
    decreases n,
{
    lemma_bits_filled(row, bits, value, (n - 1) as nat);
    if i < n - 1 {
        lemma_bits_filled_digits(row, bits, value, (n - 1) as nat, i);
    }
}

/// Halving once more is halving the half.
pub proof fn lemma_halved(x: nat, k: nat)
    ensures
        halved(x, k + 1) == halved(x / 2, k),
    decreases k,
{
    assert(halved(x, k + 1) == halved(x, k) / 2);
    if k > 0 {
        lemma_halved(x, (k - 1) as nat);
        assert(halved(x, k) == halved(x / 2, (k - 1) as nat));
        assert(halved(x / 2, k) == halved(x / 2, (k - 1) as nat) / 2);
    } else {
        assert(halved(x, 0) == x);
        assert(halved(x / 2, 0) == x / 2);
    }
}

/// Two numbers below two to the power `n` that agree in their `n` lowest
/// binary digits are the same number.
pub proof fn lemma_digits_determine(v: nat, w: nat, n: nat)
    requires
        v < pow2(n),
        w < pow2(n),
        forall|k: nat| k < n ==> bit_at(v, k) == bit_at(w, k),
    ensures
        v == w,
    decreases n,
{
    if n > 0 {
        let hv = v / 2;
        let hw = w / 2;
        assert forall|k: nat| k < n - 1 implies #[trigger] bit_at(hv, k) == bit_at(hw, k) by {
            lemma_halved(v, k);
            lemma_halved(w, k);
            assert(bit_at(v, k + 1) == bit_at(w, k + 1));
        }
        lemma_digits_determine(hv, hw, (n - 1) as nat);
        assert(bit_at(v, 0) == bit_at(w, 0));
    }
}

/// On a row whose digits spell `v`, the indicator of `w` evaluates to one if
/// `w` is `v`, and to zero if it is another number.
pub proof fn lemma_value_equals(
    bits: Seq<Column>,
    v: nat,
    w: nat,
    rotation: int,
    table: Seq<Seq<int>>,
    challenges: Seq<int>,
    row: int,
)
    requires
        -0x8000_0000 <= rotation < 0x8000_0000,
        v < pow2(bits.len()),
        w < pow2(bits.len()),
        forall|i: int|
            0 <= i < bits.len() ==> crate::expr::cell(
                table,
                row + rotation,
                (#[trigger] bits[i]).index as int,
            ) == digit(v, (bits.len() - 1 - i) as nat),
    ensures
        crate::expr::eval(value_equals_expr(bits, w, rotation), table, challenges, row) == (if v
            == w {
            1int
        } else {
            0int
        }),
{
    let terms = digit_terms(bits, w, rotation);
    let n = bits.len();
    assert forall|i: int| 0 <= i < terms.len() implies crate::expr::eval(
        #[trigger] terms[i],
        table,
        challenges,
        row,
    ) == (if bit_at(v, (n - 1 - i) as nat) == bit_at(w, (n - 1 - i) as nat) {
        1int
    } else {
        0int
    }) by {
        let q = cell_at(bits[i], rotation);
        crate::semantics::lemma_eval_cell(bits[i], rotation, table, challenges, row);
        assert(crate::expr::eval(q, table, challenges, row) == digit(v, (n - 1 - i) as nat));
        crate::semantics::lemma_eval_not(q, table, challenges, row);
    }
    assert forall|i: int| 0 <= i < terms.len() implies crate::semantics::is_bit(
        crate::expr::eval(#[trigger] terms[i], table, challenges, row),
    ) by {}
    crate::semantics::lemma_eval_and(terms, table, challenges, row);
    if v == w {
    } else {
        if crate::expr::eval(and_expr(terms), table, challenges, row) == 1 {
            assert forall|k: nat| k < n implies bit_at(v, k) == bit_at(w, k) by {
                let i = n - 1 - k;
                assert(crate::expr::eval(terms[i], table, challenges, row) == 1);
            }
            lemma_digits_determine(v, w, n);
        }
    }
}

} // verus!
