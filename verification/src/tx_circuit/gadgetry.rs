//! The table of a batch satisfies the gates of the gadgets of the circuit:
//! the two tag encoders, the tests for zero and for equality, and the two
//! comparisons.

use crate::constraint_builder::boolean_poly;
use crate::expr::cell;
use crate::expr::cell_at;
use crate::expr::eval;
use crate::expr::lit;
use crate::expr::minus;
use crate::expr::times;
use crate::expr::Column;
use crate::expr::Constraint;
use crate::expr::Expr;
use crate::field::finv_or_zero;
use crate::field::fmul;
use crate::field::fred;
use crate::field::Fe;
use crate::gadgets::byte_of;
use crate::gadgets::fpow256;
use crate::gadgets::from_bytes_expr;
use crate::gadgets::lt_check;
use crate::gadgets::lt_diff;
use crate::gadgets::lt_polys;
use crate::gadgets::pow256;
use crate::field::fsub;
use crate::field::modulus;
use crate::gadgets::is_zero_expr;
use crate::gadgets::is_zero_poly;
use crate::table::TxFieldTag;
use crate::tx_circuit::accounting::next_with_calldata;
use crate::tx_circuit::complete::field_has_inverses;
use crate::tx_circuit::complete::lemma_header_fields;
use crate::tx_circuit::complete::lemma_is_zero;
use crate::tx_circuit::rows::view_at;
use crate::tx_circuit::TX_LEN;
use crate::gadgets::binary_number_gates;
use crate::gadgets::bit_gates;
use crate::gadgets::bits_value_expr;
use crate::gadgets::digit;
use crate::gadgets::first_indices;
use crate::gadgets::lemma_halved;
use crate::gadgets::lemma_value_equals;
use crate::gadgets::out_of_range_polys;
use crate::gadgets::pow2;
use crate::gadgets::value_equals_expr;
use crate::plonk::polys_hold;
use crate::plonk::GateView;
use crate::semantics::is_bit;
use crate::semantics::lemma_eval_and;
use crate::semantics::lemma_eval_cell;
use crate::semantics::lemma_reduced;
use crate::tx_circuit::complete::lemma_meta_cells;
use crate::tx_circuit::complete::lemma_row_kind;
use crate::tx_circuit::complete::lemma_table_size;
use crate::tx_circuit::configure::block_num_enable;
use crate::tx_circuit::configure::value_is_zero_enable;
use crate::tx_circuit::configure::with_gadget_gates;
use crate::tx_circuit::queue::padded;
use crate::tx_circuit::batch::Batch;
use crate::tx_circuit::complete::used;
use crate::tx_circuit::complete::valid;
use crate::tx_circuit::complete::wrapped_view;
use crate::tx_circuit::rows::lemma_table_cells;
use crate::tx_circuit::rows::lemma_table_len;
use crate::tx_circuit::rows::lemma_table_tail;
use crate::tx_circuit::synthesis::table;
use crate::tx_circuit::TxCircuitConfig;
use crate::semantics::lemma_eval_lit;
use crate::semantics::lemma_eval_minus;
use crate::semantics::lemma_eval_plus;
use crate::semantics::lemma_eval_times;
use vstd::prelude::*;

verus! {

/// Every polynomial of every gate evaluates to zero on every row of the
/// table.
pub open spec fn all_hold(gates: Seq<GateView>, table: Seq<Seq<int>>, challenges: Seq<int>) -> bool {
    forall|g: int, r: int|
        0 <= g < gates.len() && 0 <= r < table.len() ==> #[trigger] polys_hold(
            gates[g].1,
            table,
            challenges,
            r,
        )
}

/// Gates that hold still hold with one more gate that holds.
pub proof fn lemma_one_more(
    gates: Seq<GateView>,
    name: &'static str,
    polys: Seq<Constraint>,
    table: Seq<Seq<int>>,
    challenges: Seq<int>,
)
    requires
        all_hold(gates, table, challenges),
        forall|r: int| 0 <= r < table.len() ==> #[trigger] polys_hold(polys, table, challenges, r),
    ensures
        all_hold(gates.push((name, polys)), table, challenges),
{
    let more = gates.push((name, polys));
    assert forall|g: int, r: int| 0 <= g < more.len() && 0 <= r < table.len() implies #[trigger] polys_hold(
        more[g].1,
        table,
        challenges,
        r,
    ) by {
        if g < gates.len() {
            assert(more[g] == gates[g]);
            assert(polys_hold(gates[g].1, table, challenges, r));
        }
    }
}

/// On each row of the table the cells of `bits` hold the binary digits of
/// the number that `number` gives for the row, the highest place first.
pub open spec fn spelled(
    bits: Seq<Column>,
    number: spec_fn(int) -> nat,
    table: Seq<Seq<int>>,
) -> bool {
    forall|r: int, i: int|
        0 <= r < table.len() && 0 <= i < bits.len() ==> #[trigger] cell(
            table,
            r,
            bits[i].index as int,
        ) == digit(number(r), (bits.len() - 1 - i) as nat)
}

/// Where the cells of the digits hold digits, the gates that make each of
/// them zero or one hold.
pub proof fn lemma_bit_gates(
    gates: Seq<GateView>,
    selector: Column,
    bits: Seq<Column>,
    n: nat,
    number: spec_fn(int) -> nat,
    table: Seq<Seq<int>>,
    challenges: Seq<int>,
)
    requires
        n <= bits.len(),
        all_hold(gates, table, challenges),
        spelled(bits, number, table),
    ensures
        all_hold(bit_gates(gates, selector, bits, n), table, challenges),
    decreases n,
{
    if n > 0 {
        lemma_bit_gates(gates, selector, bits, (n - 1) as nat, number, table, challenges);
        let bit = cell_at(bits[n - 1], 0);
        let poly = times(times(cell_at(selector, 0), bit), minus(lit(1), bit));
        let polys = seq![("", poly)];
        assert forall|r: int| 0 <= r < table.len() implies #[trigger] polys_hold(
            polys,
            table,
            challenges,
            r,
        ) by {
            lemma_eval_cell(bits[n - 1], 0, table, challenges, r);
            assert(cell(table, r, bits[n - 1].index as int) == digit(
                number(r),
                (bits.len() - 1 - (n - 1)) as nat,
            ));
            lemma_eval_lit(1, table, challenges, r);
            lemma_eval_minus(lit(1), bit, table, challenges, r);
            lemma_eval_times(cell_at(selector, 0), bit, table, challenges, r);
            lemma_eval_times(times(cell_at(selector, 0), bit), minus(lit(1), bit), table, challenges, r);
        }
        lemma_one_more(
            bit_gates(gates, selector, bits, (n - 1) as nat),
            "bit column is 0 or 1",
            polys,
            table,
            challenges,
        );
    }
}

/// A number is twice its half and its lowest binary digit, also where only
/// its lowest places are kept.
pub proof fn lemma_lowest_places(v: nat, m: nat)
    requires
        m > 0,
    ensures
        v % (2 * m) == (v % 2) + 2 * ((v / 2) % m),
{
    let q = v / 2;
    let a = q / m;
    let rest = q % m;
    vstd::arithmetic::div_mod::lemma_fundamental_div_mod(v as int, 2);
    vstd::arithmetic::div_mod::lemma_fundamental_div_mod(q as int, m as int);
    assert(v == a * (2 * m) + (2 * rest + v % 2)) by (nonlinear_arith)
        requires
            v == 2 * q + v % 2,
            q == m * a + rest,
    ;
    assert(0 <= 2 * rest + v % 2 < 2 * m);
    vstd::arithmetic::div_mod::lemma_fundamental_div_mod_converse(
        v as int,
        (2 * m) as int,
        a as int,
        (2 * rest + v % 2) as int,
    );
}

/// Where the cells of the digits hold the digits of a number, they spell
/// the number, as far as they reach.
pub proof fn lemma_bits_value(
    bits: Seq<Column>,
    v: nat,
    table: Seq<Seq<int>>,
    challenges: Seq<int>,
    row: int,
)
    requires
        bits.len() <= 8,
        forall|i: int|
            0 <= i < bits.len() ==> cell(table, row, (#[trigger] bits[i]).index as int) == digit(
                v,
                (bits.len() - 1 - i) as nat,
            ),
    ensures
        eval(bits_value_expr(bits, 0), table, challenges, row) == v % pow2(bits.len()),
    decreases bits.len(),
{
    reveal_with_fuel(pow2, 9);
    if bits.len() == 0 {
        lemma_eval_lit(0, table, challenges, row);
    } else {
        let head = bits.drop_last();
        let n = bits.len();
        assert forall|i: int| 0 <= i < head.len() implies cell(
            table,
            row,
            (#[trigger] head[i]).index as int,
        ) == digit(v / 2, (head.len() - 1 - i) as nat) by {
            assert(head[i] == bits[i]);
            lemma_halved(v, (head.len() - 1 - i) as nat);
        }
        lemma_bits_value(head, v / 2, table, challenges, row);
        let last = cell_at(bits.last(), 0);
        let rest = bits_value_expr(head, 0);
        lemma_eval_cell(bits.last(), 0, table, challenges, row);
        assert(bits.last() == bits[n - 1]);
        assert(cell(table, row, bits[n - 1].index as int) == digit(v, 0));
        lemma_eval_lit(2, table, challenges, row);
        lemma_eval_times(rest, lit(2), table, challenges, row);
        lemma_eval_plus(last, times(rest, lit(2)), table, challenges, row);
        let half = (v / 2) % pow2((n - 1) as nat);
        assert(half < 256);
        lemma_lowest_places(v, pow2((n - 1) as nat));
        vstd::arithmetic::div_mod::lemma_small_mod((half * 2) as nat, modulus());
        vstd::arithmetic::div_mod::lemma_small_mod((v % 2 + half * 2) as nat, modulus());
        assert(crate::field::fmul(half as int, 2) == half * 2);
    }
}

/// Where the cells of the digits hold the digits of a number that stands
/// for a member, the polynomials that exclude the numbers that stand for
/// none evaluate to zero.
pub proof fn lemma_out_of_range(
    selector: Expr,
    bits: Seq<Column>,
    valid: Seq<u64>,
    m: nat,
    v: nat,
    table: Seq<Seq<int>>,
    challenges: Seq<int>,
    row: int,
)
    requires
        m <= pow2(bits.len()),
        m <= u64::MAX,
        v < pow2(bits.len()),
        valid.contains(v as u64),
        v <= u64::MAX,
        forall|i: int|
            0 <= i < bits.len() ==> cell(table, row, (#[trigger] bits[i]).index as int) == digit(
                v,
                (bits.len() - 1 - i) as nat,
            ),
    ensures
        polys_hold(out_of_range_polys(selector, bits, valid, m), table, challenges, row),
    decreases m,
{
    if m > 0 {
        lemma_out_of_range(selector, bits, valid, (m - 1) as nat, v, table, challenges, row);
        if !valid.contains((m - 1) as u64) {
            lemma_value_equals(bits, v, (m - 1) as nat, 0, table, challenges, row);
            lemma_eval_times(
                selector,
                value_equals_expr(bits, (m - 1) as nat, 0),
                table,
                challenges,
                row,
            );
        }
    }
}

/// Where on each row the cells of the digits hold the digits of the number
/// of a member and the cell of the value holds that number, the gates of
/// the tag encoder hold.
pub proof fn lemma_binary_number_gates(
    gates: Seq<GateView>,
    selector: Column,
    value: Column,
    bits: Seq<Column>,
    valid: Seq<u64>,
    number: spec_fn(int) -> nat,
    table: Seq<Seq<int>>,
    challenges: Seq<int>,
)
    requires
        bits.len() <= 8,
        all_hold(gates, table, challenges),
        spelled(bits, number, table),
        forall|r: int|
            0 <= r < table.len() ==> #[trigger] number(r) < pow2(bits.len()) && valid.contains(
                number(r) as u64,
            ) && cell(table, r, value.index as int) == number(r),
    ensures
        all_hold(
            binary_number_gates(gates, selector, Some(value), bits, valid),
            table,
            challenges,
        ),
{
    reveal_with_fuel(pow2, 9);
    let g1 = bit_gates(gates, selector, bits, bits.len());
    lemma_bit_gates(gates, selector, bits, bits.len(), number, table, challenges);
    let tie = seq![
        ("", times(cell_at(selector, 0), minus(bits_value_expr(bits, 0), cell_at(value, 0)))),
    ];
    let polys = out_of_range_polys(cell_at(selector, 0), bits, valid, pow2(bits.len()));
    assert forall|r: int| 0 <= r < table.len() implies #[trigger] polys_hold(
        tie,
        table,
        challenges,
        r,
    ) by {
        let v = number(r);
        assert forall|i: int| 0 <= i < bits.len() implies cell(
            table,
            r,
            (#[trigger] bits[i]).index as int,
        ) == digit(v, (bits.len() - 1 - i) as nat) by {
            assert(cell(table, r, bits[i].index as int) == digit(
                number(r),
                (bits.len() - 1 - i) as nat,
            ));
        }
        lemma_bits_value(bits, v, table, challenges, r);
        vstd::arithmetic::div_mod::lemma_small_mod(v, pow2(bits.len()));
        lemma_eval_cell(value, 0, table, challenges, r);
        lemma_eval_minus(bits_value_expr(bits, 0), cell_at(value, 0), table, challenges, r);
        lemma_eval_times(
            cell_at(selector, 0),
            minus(bits_value_expr(bits, 0), cell_at(value, 0)),
            table,
            challenges,
            r,
        );
    }
    assert forall|r: int| 0 <= r < table.len() implies #[trigger] polys_hold(
        polys,
        table,
        challenges,
        r,
    ) by {
        let v = number(r);
        assert forall|i: int| 0 <= i < bits.len() implies cell(
            table,
            r,
            (#[trigger] bits[i]).index as int,
        ) == digit(v, (bits.len() - 1 - i) as nat) by {
            assert(cell(table, r, bits[i].index as int) == digit(
                number(r),
                (bits.len() - 1 - i) as nat,
            ));
        }
        lemma_out_of_range(
            cell_at(selector, 0),
            bits,
            valid,
            pow2(bits.len()),
            v,
            table,
            challenges,
            r,
        );
    }
    lemma_one_more(g1, "binary number value", tie, table, challenges);
    let g2 = g1.push(("binary number value", tie));
    if polys.len() > 0 {
        lemma_one_more(g2, "binary number value in range", polys, table, challenges);
    }
}

/// The kind of the row `r` of the table of a batch, as a number.
pub open spec fn kind_number(b: Batch, max_txs: nat, max_calldata: nat, n: int) -> spec_fn(
    int,
) -> nat {
    |r: int| wrapped_view(b, max_txs, max_calldata, n, r).tag.spec_index()
}

/// The type of the transaction of the row `r` of the table of a batch, as a
/// number.
pub open spec fn type_number(b: Batch, max_txs: nat, max_calldata: nat, n: int) -> spec_fn(
    int,
) -> nat {
    |r: int| wrapped_view(b, max_txs, max_calldata, n, r).tx_type.spec_index()
}

/// On a row of the table of a batch the cells of the two tag encoders hold
/// the digits of the kind of the row and of the type of its transaction,
/// and the cells of the kind and of the type hold their numbers.
pub proof fn lemma_encoder_row(
    c: &TxCircuitConfig,
    b: Batch,
    max_txs: nat,
    max_calldata: nat,
    end: nat,
    r: int,
)
    requires
        valid(c, b, max_txs, max_calldata),
        0 <= r < table(c, b, max_txs, max_calldata, end).len(),
    ensures
        ({
            let t = table(c, b, max_txs, max_calldata, end);
            let v = wrapped_view(b, max_txs, max_calldata, t.len() as int, r);
            &&& c.tx_tag_bits.bits@.len() == 5
            &&& c.tx_type_bits.bits@.len() == 3
            &&& cell(t, r, c.tx_table.tag.index as int) == v.tag.spec_index()
            &&& cell(t, r, c.tx_type.index as int) == v.tx_type.spec_index()
            &&& forall|i: int|
                0 <= i < 5 ==> cell(t, r, (#[trigger] c.tx_tag_bits.bits@[i]).index as int)
                    == digit(v.tag.spec_index(), (4 - i) as nat)
            &&& forall|i: int|
                0 <= i < 3 ==> cell(t, r, (#[trigger] c.tx_type_bits.bits@[i]).index as int)
                    == digit(v.tx_type.spec_index(), (2 - i) as nat)
        }),
{
    reveal(valid);
    let t = table(c, b, max_txs, max_calldata, end);
    lemma_table_len(c, b, max_txs, max_calldata, end);
    let n = t.len() as int;
    crate::tx_circuit::rows::lemma_view_first(b, max_txs);
    let v = wrapped_view(b, max_txs, max_calldata, n, r);
    vstd::arithmetic::div_mod::lemma_small_mod(r as nat, n as nat);
    vstd::arithmetic::div_mod::lemma_small_mod(v.tag.spec_index(), modulus());
    vstd::arithmetic::div_mod::lemma_small_mod(v.tx_type.spec_index(), modulus());
    vstd::arithmetic::div_mod::lemma_small_mod(0, modulus());
    vstd::arithmetic::div_mod::lemma_small_mod(1, modulus());
    if r < used(max_txs, max_calldata) {
        lemma_table_cells(c, b, max_txs, max_calldata, end, r);
    } else {
        lemma_table_tail(c, b, max_txs, max_calldata, end, r);
        crate::tx_circuit::complete::lemma_digits_of_zero(0);
        crate::tx_circuit::complete::lemma_digits_of_zero(1);
        crate::tx_circuit::complete::lemma_digits_of_zero(2);
        crate::tx_circuit::complete::lemma_digits_of_zero(3);
        crate::tx_circuit::complete::lemma_digits_of_zero(4);
    }
}

/// On each row of the table of a batch the cells of the two tag encoders
/// hold the digits of the kind of the row and of the type of its
/// transaction, and the cells of the kind and of the type hold their
/// numbers.
pub proof fn lemma_encoder_cells(
    c: &TxCircuitConfig,
    b: Batch,
    max_txs: nat,
    max_calldata: nat,
    end: nat,
)
    requires
        valid(c, b, max_txs, max_calldata),
    ensures
        ({
            let t = table(c, b, max_txs, max_calldata, end);
            let n = t.len() as int;
            &&& spelled(c.tx_tag_bits.bits@, kind_number(b, max_txs, max_calldata, n), t)
            &&& spelled(c.tx_type_bits.bits@, type_number(b, max_txs, max_calldata, n), t)
            &&& c.tx_tag_bits.bits@.len() == 5
            &&& c.tx_type_bits.bits@.len() == 3
            &&& forall|r: int|
                0 <= r < n ==> #[trigger] cell(t, r, c.tx_table.tag.index as int) == kind_number(
                    b,
                    max_txs,
                    max_calldata,
                    n,
                )(r)
            &&& forall|r: int|
                0 <= r < n ==> #[trigger] cell(t, r, c.tx_type.index as int) == type_number(
                    b,
                    max_txs,
                    max_calldata,
                    n,
                )(r)
        }),
{
    reveal(valid);
    let t = table(c, b, max_txs, max_calldata, end);
    lemma_table_len(c, b, max_txs, max_calldata, end);
    let n = t.len() as int;
    crate::tx_circuit::rows::lemma_view_first(b, max_txs);
    let kinds = kind_number(b, max_txs, max_calldata, n);
    let types = type_number(b, max_txs, max_calldata, n);
    assert forall|r: int, i: int|
        0 <= r < t.len() && 0 <= i < c.tx_tag_bits.bits@.len() implies #[trigger] cell(
        t,
        r,
        c.tx_tag_bits.bits@[i].index as int,
    ) == digit(kinds(r), (c.tx_tag_bits.bits@.len() - 1 - i) as nat) by {
        lemma_encoder_row(c, b, max_txs, max_calldata, end, r);
    }
    assert forall|r: int, i: int|
        0 <= r < t.len() && 0 <= i < c.tx_type_bits.bits@.len() implies #[trigger] cell(
        t,
        r,
        c.tx_type_bits.bits@[i].index as int,
    ) == digit(types(r), (c.tx_type_bits.bits@.len() - 1 - i) as nat) by {
        lemma_encoder_row(c, b, max_txs, max_calldata, end, r);
    }
    assert forall|r: int| 0 <= r < n implies #[trigger] cell(t, r, c.tx_table.tag.index as int)
        == kinds(r) by {
        lemma_encoder_row(c, b, max_txs, max_calldata, end, r);
    }
    assert forall|r: int| 0 <= r < n implies #[trigger] cell(t, r, c.tx_type.index as int)
        == types(r) by {
        lemma_encoder_row(c, b, max_txs, max_calldata, end, r);
    }
}

/// The gates of the two tag encoders hold on the table of a batch.
pub proof fn theorem_encoders(
    gates: Seq<GateView>,
    c: &TxCircuitConfig,
    b: Batch,
    max_txs: nat,
    max_calldata: nat,
    end: nat,
    challenges: Seq<int>,
)
    requires
        valid(c, b, max_txs, max_calldata),
        all_hold(gates, table(c, b, max_txs, max_calldata, end), challenges),
    ensures
        all_hold(
            binary_number_gates(
                binary_number_gates(
                    gates,
                    c.tx_table.q_enable,
                    Some(c.tx_table.tag),
                    c.tx_tag_bits.bits@,
                    first_indices(25),
                ),
                c.tx_table.q_enable,
                Some(c.tx_type),
                c.tx_type_bits.bits@,
                first_indices(5),
            ),
            table(c, b, max_txs, max_calldata, end),
            challenges,
        ),
{
    reveal_with_fuel(pow2, 9);
    let t = table(c, b, max_txs, max_calldata, end);
    let n = t.len() as int;
    lemma_encoder_cells(c, b, max_txs, max_calldata, end);
    let kinds = kind_number(b, max_txs, max_calldata, n);
    let types = type_number(b, max_txs, max_calldata, n);
    assert forall|r: int| 0 <= r < t.len() implies #[trigger] kinds(r) < pow2(5)
        && first_indices(25).contains(kinds(r) as u64) && cell(
        t,
        r,
        c.tx_table.tag.index as int,
    ) == kinds(r) by {
        let k = kinds(r);
        assert(k < 25);
        assert(first_indices(25)[k as int] == k as u64);
    }
    lemma_binary_number_gates(
        gates,
        c.tx_table.q_enable,
        c.tx_table.tag,
        c.tx_tag_bits.bits@,
        first_indices(25),
        kinds,
        t,
        challenges,
    );
    let g1 = binary_number_gates(
        gates,
        c.tx_table.q_enable,
        Some(c.tx_table.tag),
        c.tx_tag_bits.bits@,
        first_indices(25),
    );
    assert forall|r: int| 0 <= r < t.len() implies #[trigger] types(r) < pow2(3)
        && first_indices(5).contains(types(r) as u64) && cell(t, r, c.tx_type.index as int)
        == types(r) by {
        let k = types(r);
        assert(k < 5);
        assert(first_indices(5)[k as int] == k as u64);
    }
    lemma_binary_number_gates(
        g1,
        c.tx_table.q_enable,
        c.tx_type,
        c.tx_type_bits.bits@,
        first_indices(5),
        types,
        t,
        challenges,
    );
}

/// The polynomial that ties the inverse of a test for zero to the value
/// evaluates to zero on a row where it is not enabled, or where the cell of
/// the inverse holds the inverse of the value, or zero.
pub proof fn lemma_is_zero_poly(
    enable: Expr,
    value: Expr,
    value_inv: Column,
    x: int,
    table: Seq<Seq<int>>,
    challenges: Seq<int>,
    row: int,
)
    requires
        field_has_inverses(),
        eval(enable, table, challenges, row) == 0 || (eval(value, table, challenges, row) == fred(x)
            && cell(table, row, value_inv.index as int) == fred(finv_or_zero(x))),
    ensures
        eval(is_zero_poly(enable, value, value_inv), table, challenges, row) == 0,
{
    lemma_eval_times(enable, value, table, challenges, row);
    lemma_eval_times(
        times(enable, value),
        is_zero_expr(value, value_inv, 0),
        table,
        challenges,
        row,
    );
    if eval(enable, table, challenges, row) != 0 {
        lemma_is_zero(value, value_inv, 0, x, table, challenges, row);
    }
}

/// The sequence number that a row announces for the next row is the one
/// that the next row carries, and no sequence number is above the number of
/// headers.
pub proof fn lemma_next_tx_id(b: Batch, max_txs: nat, max_calldata: nat, n: int, r: int)
    requires
        b.wf(),
        b.all().len() == max_txs,
        max_txs >= 1,
        b.txs.len() <= max_txs,
        b.calldata_len() <= max_calldata,
        max_calldata >= 1,
        n >= used(max_txs, max_calldata),
        0 <= r < used(max_txs, max_calldata),
    ensures
        wrapped_view(b, max_txs, max_calldata, n, r + 1).tx_id == view_at(b, max_txs, r).tx_id_next,
        0 <= view_at(b, max_txs, r).tx_id <= max_txs,
        0 <= view_at(b, max_txs, r).tx_id_next <= max_txs,
        view_at(b, max_txs, r).tag == TxFieldTag::CallData ==> view_at(b, max_txs, r).tx_id_next
            == 0 || view_at(b, max_txs, r).tx_id <= view_at(b, max_txs, r).tx_id_next,
{
    let hl = max_txs * TX_LEN;
    assert(hl >= TX_LEN) by (nonlinear_arith)
        requires
            hl == max_txs * TX_LEN,
            max_txs >= 1,
    ;
    let count = b.txs.len();
    crate::tx_circuit::rows::lemma_view_first(b, max_txs);
    if r + 1 < n {
        vstd::arithmetic::div_mod::lemma_small_mod((r + 1) as nat, n as nat);
    } else {
        vstd::arithmetic::div_mod::lemma_mod_self_0(n);
    }
    if r == 0 {
        crate::tx_circuit::rows::lemma_view_header(b, max_txs, 0, 0);
        lemma_header_fields(b, 0, 0);
    } else if r <= hl {
        let (i, j) = crate::tx_circuit::rows::lemma_header_place(max_txs, r);
        crate::tx_circuit::rows::lemma_view_header(b, max_txs, i, j);
        lemma_header_fields(b, i, j);
        reveal(Batch::header_view);
        if j < TX_LEN - 1 {
            crate::tx_circuit::rows::lemma_view_header(b, max_txs, i, j + 1);
        } else if i + 1 < max_txs {
            crate::tx_circuit::rows::lemma_view_header(b, max_txs, i + 1, 0);
            assert(1 + (i + 1) * TX_LEN + 0 == r + 1) by (nonlinear_arith)
                requires
                    r == 1 + i * TX_LEN + j,
                    j == TX_LEN - 1,
            ;
        } else {
            assert(r == hl) by (nonlinear_arith)
                requires
                    r == 1 + i * TX_LEN + j,
                    j == TX_LEN - 1,
                    i == max_txs - 1,
                    hl == max_txs * TX_LEN,
            ;
            crate::tx_circuit::complete::lemma_next_with_calldata(b.txs, 0);
            let m = next_with_calldata(b.txs, 0);
            if m > 0 {
                crate::tx_circuit::rows::lemma_view_calldata(b, max_txs, m - 1, 0);
                crate::tx_circuit::complete::lemma_calldata_fields(b, m - 1, 0);
            } else {
                crate::tx_circuit::rows::lemma_view_empty(b, max_txs, r + 1);
            }
        }
    } else {
        let p = r - 1 - hl;
        if p < b.calldata_len() {
            crate::tx_circuit::rows::lemma_owner(b.txs, count, p);
            let o = crate::tx_circuit::rows::owner(b.txs, count, p);
            crate::tx_circuit::complete::lemma_calldata_fields(b, o.0, o.1);
            crate::tx_circuit::complete::lemma_calldata_adjacent(
                b,
                max_txs,
                max_calldata,
                n,
                o.0,
                o.1,
            );
            crate::tx_circuit::complete::lemma_next_with_calldata(b.txs, (o.0 + 1) as nat);
        } else {
            crate::tx_circuit::rows::lemma_view_empty(b, max_txs, r);
            if r + 1 < used(max_txs, max_calldata) {
                crate::tx_circuit::rows::lemma_view_empty(b, max_txs, r + 1);
            }
        }
    }
}

/// The inverse of the test of the sequence number for zero is tied to the
/// sequence number on each row of the table of a batch.
pub proof fn lemma_tx_id_is_zero(
    c: &TxCircuitConfig,
    b: Batch,
    max_txs: nat,
    max_calldata: nat,
    end: nat,
    challenges: Seq<int>,
    r: int,
)
    requires
        valid(c, b, max_txs, max_calldata),
        field_has_inverses(),
        0 <= r < table(c, b, max_txs, max_calldata, end).len(),
    ensures
        eval(
            is_zero_poly(
                cell_at(c.tx_table.q_enable, 0),
                cell_at(c.tx_table.tx_id, 0),
                c.tx_id_is_zero.value_inv,
            ),
            table(c, b, max_txs, max_calldata, end),
            challenges,
            r,
        ) == 0,
{
    let t = table(c, b, max_txs, max_calldata, end);
    lemma_table_size(c, b, max_txs, max_calldata, end);
    let n = t.len() as int;
    vstd::arithmetic::div_mod::lemma_small_mod(r as nat, n as nat);
    let v = wrapped_view(b, max_txs, max_calldata, n, r);
    let w = wrapped_view(b, max_txs, max_calldata, n, r + 1);
    let q_enable = cell_at(c.tx_table.q_enable, 0);
    let tx_id = cell_at(c.tx_table.tx_id, 0);
    lemma_row_kind(c, b, max_txs, max_calldata, end, challenges, r, 0, TxFieldTag::Null);
    vstd::arithmetic::div_mod::lemma_small_mod(0, modulus());
    crate::tx_circuit::rows::lemma_view_first(b, max_txs);
    reveal(valid);
    if r < used(max_txs, max_calldata) {
        lemma_table_cells(c, b, max_txs, max_calldata, end, r);
    } else {
        lemma_table_tail(c, b, max_txs, max_calldata, end, r);
    }
    lemma_eval_cell(c.tx_id_is_zero.value_inv, 0, t, challenges, r);
    lemma_is_zero_poly(q_enable, tx_id, c.tx_id_is_zero.value_inv, v.tx_id, t, challenges, r);
}

/// The inverse of the test whether the sequence number stays the same is
/// tied to the sequence numbers of a row and of the next on each row of the
/// table of a batch.
pub proof fn lemma_tx_id_unchanged_tied(
    c: &TxCircuitConfig,
    b: Batch,
    max_txs: nat,
    max_calldata: nat,
    end: nat,
    challenges: Seq<int>,
    r: int,
)
    requires
        valid(c, b, max_txs, max_calldata),
        field_has_inverses(),
        0 <= r < table(c, b, max_txs, max_calldata, end).len(),
    ensures
        eval(
            is_zero_poly(
                cell_at(c.tx_table.q_enable, 0),
                minus(cell_at(c.tx_table.tx_id, 0), cell_at(c.tx_table.tx_id, 1)),
                c.tx_id_unchanged.value_inv,
            ),
            table(c, b, max_txs, max_calldata, end),
            challenges,
            r,
        ) == 0,
{
    let t = table(c, b, max_txs, max_calldata, end);
    lemma_table_size(c, b, max_txs, max_calldata, end);
    let n = t.len() as int;
    vstd::arithmetic::div_mod::lemma_small_mod(r as nat, n as nat);
    let v = wrapped_view(b, max_txs, max_calldata, n, r);
    let w = wrapped_view(b, max_txs, max_calldata, n, r + 1);
    let q_enable = cell_at(c.tx_table.q_enable, 0);
    let tx_id = cell_at(c.tx_table.tx_id, 0);
    lemma_row_kind(c, b, max_txs, max_calldata, end, challenges, r, 0, TxFieldTag::Null);
    vstd::arithmetic::div_mod::lemma_small_mod(0, modulus());
    crate::tx_circuit::rows::lemma_view_first(b, max_txs);
    reveal(valid);
    if r < used(max_txs, max_calldata) {
        lemma_table_cells(c, b, max_txs, max_calldata, end, r);
    } else {
        lemma_table_tail(c, b, max_txs, max_calldata, end, r);
    }
    let tx_id_next = cell_at(c.tx_table.tx_id, 1);
    lemma_row_kind(c, b, max_txs, max_calldata, end, challenges, r, 1, TxFieldTag::Null);
    lemma_eval_cell(c.tx_id_unchanged.value_inv, 0, t, challenges, r);
    lemma_eval_minus(tx_id, tx_id_next, t, challenges, r);
    lemma_reduced(v.tx_id, w.tx_id);
    lemma_reduced(v.tx_id - w.tx_id, 0);
    if r < used(max_txs, max_calldata) {
        lemma_next_tx_id(b, max_txs, max_calldata, n, r);
    }
    lemma_is_zero_poly(
        q_enable,
        minus(tx_id, tx_id_next),
        c.tx_id_unchanged.value_inv,
        fsub(v.tx_id, v.tx_id_next),
        t,
        challenges,
        r,
    );
}

/// The inverse of the test of the value for zero is tied to the value on
/// each row of the table of a batch.
pub proof fn lemma_value_is_zero_tied(
    c: &TxCircuitConfig,
    b: Batch,
    max_txs: nat,
    max_calldata: nat,
    end: nat,
    challenges: Seq<int>,
    r: int,
)
    requires
        valid(c, b, max_txs, max_calldata),
        field_has_inverses(),
        0 <= r < table(c, b, max_txs, max_calldata, end).len(),
    ensures
        eval(
            is_zero_poly(
                value_is_zero_enable(c),
                cell_at(c.tx_table.value, 0),
                c.value_is_zero.value_inv,
            ),
            table(c, b, max_txs, max_calldata, end),
            challenges,
            r,
        ) == 0,
{
    let t = table(c, b, max_txs, max_calldata, end);
    lemma_table_size(c, b, max_txs, max_calldata, end);
    let n = t.len() as int;
    vstd::arithmetic::div_mod::lemma_small_mod(r as nat, n as nat);
    let v = wrapped_view(b, max_txs, max_calldata, n, r);
    let w = wrapped_view(b, max_txs, max_calldata, n, r + 1);
    let q_enable = cell_at(c.tx_table.q_enable, 0);
    let tx_id = cell_at(c.tx_table.tx_id, 0);
    lemma_row_kind(c, b, max_txs, max_calldata, end, challenges, r, 0, TxFieldTag::Null);
    vstd::arithmetic::div_mod::lemma_small_mod(0, modulus());
    crate::tx_circuit::rows::lemma_view_first(b, max_txs);
    reveal(valid);
    if r < used(max_txs, max_calldata) {
        lemma_table_cells(c, b, max_txs, max_calldata, end, r);
    } else {
        lemma_table_tail(c, b, max_txs, max_calldata, end, r);
    }
    crate::tx_circuit::stored::lemma_copied(c, b, max_txs, max_calldata, end, challenges, r);
    lemma_eval_cell(c.value_is_zero.value_inv, 0, t, challenges, r);
    lemma_is_zero_poly(
        value_is_zero_enable(c),
        cell_at(c.tx_table.value, 0),
        c.value_is_zero.value_inv,
        v.value,
        t,
        challenges,
        r,
    );
}

/// The inverse of the test whether the sequence number is the cumulative
/// count is tied to the two on each row of the table of a batch.
pub proof fn lemma_equal_tied(
    c: &TxCircuitConfig,
    b: Batch,
    max_txs: nat,
    max_calldata: nat,
    end: nat,
    challenges: Seq<int>,
    r: int,
)
    requires
        valid(c, b, max_txs, max_calldata),
        field_has_inverses(),
        0 <= r < table(c, b, max_txs, max_calldata, end).len(),
    ensures
        eval(
            is_zero_poly(
                cell_at(c.tx_table.q_enable, 0),
                minus(cell_at(c.tx_table.tx_id, 0), cell_at(c.cum_num_txs, 0)),
                c.tx_id_vs_cum_num_txs.eq_chip.value_inv,
            ),
            table(c, b, max_txs, max_calldata, end),
            challenges,
            r,
        ) == 0,
{
    let t = table(c, b, max_txs, max_calldata, end);
    lemma_table_size(c, b, max_txs, max_calldata, end);
    let n = t.len() as int;
    vstd::arithmetic::div_mod::lemma_small_mod(r as nat, n as nat);
    let v = wrapped_view(b, max_txs, max_calldata, n, r);
    let w = wrapped_view(b, max_txs, max_calldata, n, r + 1);
    let q_enable = cell_at(c.tx_table.q_enable, 0);
    let tx_id = cell_at(c.tx_table.tx_id, 0);
    lemma_row_kind(c, b, max_txs, max_calldata, end, challenges, r, 0, TxFieldTag::Null);
    vstd::arithmetic::div_mod::lemma_small_mod(0, modulus());
    crate::tx_circuit::rows::lemma_view_first(b, max_txs);
    reveal(valid);
    if r < used(max_txs, max_calldata) {
        lemma_table_cells(c, b, max_txs, max_calldata, end, r);
    } else {
        lemma_table_tail(c, b, max_txs, max_calldata, end, r);
    }
    let cum = cell_at(c.cum_num_txs, 0);
    lemma_meta_cells(c, b, max_txs, max_calldata, end, challenges, r, 0);
    crate::tx_circuit::counting::lemma_compared_cells(
        c,
        b,
        max_txs,
        max_calldata,
        end,
        challenges,
        r,
    );
    lemma_eval_cell(c.tx_id_vs_cum_num_txs.eq_chip.value_inv, 0, t, challenges, r);
    lemma_eval_minus(tx_id, cum, t, challenges, r);
    lemma_reduced(v.tx_id, v.cum_num_txs);
    lemma_reduced(v.tx_id - v.cum_num_txs, 0);
    lemma_is_zero_poly(
        q_enable,
        minus(tx_id, cum),
        c.tx_id_vs_cum_num_txs.eq_chip.value_inv,
        fsub(v.tx_id, v.cum_num_txs),
        t,
        challenges,
        r,
    );
}

/// The inverse of the test for a change of block is tied to the block
/// numbers of the last row of a header and of the next row on each row of
/// the table of a batch.
pub proof fn lemma_block_num_tied(
    c: &TxCircuitConfig,
    b: Batch,
    max_txs: nat,
    max_calldata: nat,
    end: nat,
    challenges: Seq<int>,
    r: int,
)
    requires
        valid(c, b, max_txs, max_calldata),
        field_has_inverses(),
        padded(b),
        0 <= r < table(c, b, max_txs, max_calldata, end).len(),
    ensures
        eval(
            is_zero_poly(
                block_num_enable(c),
                minus(cell_at(c.block_num, 1), cell_at(c.block_num, 0)),
                c.block_num_unchanged.value_inv,
            ),
            table(c, b, max_txs, max_calldata, end),
            challenges,
            r,
        ) == 0,
{
    let t = table(c, b, max_txs, max_calldata, end);
    lemma_table_size(c, b, max_txs, max_calldata, end);
    let n = t.len() as int;
    vstd::arithmetic::div_mod::lemma_small_mod(r as nat, n as nat);
    let v = wrapped_view(b, max_txs, max_calldata, n, r);
    let w = wrapped_view(b, max_txs, max_calldata, n, r + 1);
    let q_enable = cell_at(c.tx_table.q_enable, 0);
    let tx_id = cell_at(c.tx_table.tx_id, 0);
    lemma_row_kind(c, b, max_txs, max_calldata, end, challenges, r, 0, TxFieldTag::Null);
    vstd::arithmetic::div_mod::lemma_small_mod(0, modulus());
    crate::tx_circuit::rows::lemma_view_first(b, max_txs);
    reveal(valid);
    if r < used(max_txs, max_calldata) {
        lemma_table_cells(c, b, max_txs, max_calldata, end, r);
    } else {
        lemma_table_tail(c, b, max_txs, max_calldata, end, r);
    }
    let block = cell_at(c.block_num, 0);
    let block_next = cell_at(c.block_num, 1);
    lemma_meta_cells(c, b, max_txs, max_calldata, end, challenges, r, 0);
    lemma_meta_cells(c, b, max_txs, max_calldata, end, challenges, r, 1);
    crate::tx_circuit::stored::lemma_stored(c, b, max_txs, max_calldata, end, challenges, r);
    lemma_eval_cell(c.block_num_unchanged.value_inv, 0, t, challenges, r);
    lemma_eval_minus(block_next, block, t, challenges, r);
    lemma_reduced(w.cur_block_num, v.cur_block_num);
    lemma_reduced(w.cur_block_num - v.cur_block_num, 0);
    let parts = seq![q_enable, cell_at(c.is_tag_block_num, 0)];
    assert forall|i: int| 0 <= i < parts.len() implies is_bit(
        eval(#[trigger] parts[i], t, challenges, r),
    ) by {}
    lemma_eval_and(parts, t, challenges, r);
    if eval(block_num_enable(c), t, challenges, r) != 0 {
        assert(eval(parts[0], t, challenges, r) == 1);
        assert(eval(parts[1], t, challenges, r) == 1);
        let (i, j) = crate::tx_circuit::stored::lemma_header_row(b, max_txs, max_calldata, r);
        assert(j == 22);
        crate::tx_circuit::queue::lemma_header_end(b, max_txs, max_calldata, n, i);
    }
    lemma_is_zero_poly(
        block_num_enable(c),
        minus(block_next, block),
        c.block_num_unchanged.value_inv,
        fsub(v.next_block_num, v.cur_block_num),
        t,
        challenges,
        r,
    );
}

/// A polynomial scaled by a constant evaluates to the product of the two.
pub proof fn lemma_eval_scaled(a: Expr, k: int, table: Seq<Seq<int>>, challenges: Seq<int>, row: int)
    requires
        0 <= k < modulus(),
    ensures
        eval(Expr::Scaled(Box::new(a), Fe::of_int(k)), table, challenges, row) == fmul(
            eval(a, table, challenges, row),
            k,
        ),
{
    Fe::lemma_of_int(k);
}

/// The two polynomials of a comparison of two numbers below 65536 evaluate
/// to zero on a row where the comparison is not enabled, or where its cells
/// hold its result and the two bytes of the difference.
pub proof fn lemma_lt_polys(
    q_enable: Expr,
    lhs: Expr,
    rhs: Expr,
    lt: Column,
    diff: Seq<Column>,
    l: int,
    u: int,
    table: Seq<Seq<int>>,
    challenges: Seq<int>,
    row: int,
)
    requires
        diff.len() == 2,
        cell(table, row, lt.index as int) == 0 || cell(table, row, lt.index as int) == 1,
        eval(q_enable, table, challenges, row) == 0 || {
            &&& 0 <= l < 65536
            &&& 0 <= u < 65536
            &&& eval(lhs, table, challenges, row) == l
            &&& eval(rhs, table, challenges, row) == u
            &&& cell(table, row, lt.index as int) == (if l < u {
                1int
            } else {
                0int
            })
            &&& forall|i: int|
                0 <= i < 2 ==> cell(table, row, (#[trigger] diff[i]).index as int) == byte_of(
                    lt_diff(l, u, 2) % 0x1_0000_0000_0000_0000int,
                    i as nat,
                )
        },
    ensures
        polys_hold(lt_polys(q_enable, lhs, rhs, lt, diff), table, challenges, row),
{
    let check = lt_check(lhs, rhs, lt, diff);
    let result = cell_at(lt, 0);
    lemma_eval_cell(lt, 0, table, challenges, row);
    crate::constraint_builder::lemma_boolean(result, table, challenges, row);
    lemma_eval_times(q_enable, boolean_poly(result), table, challenges, row);
    lemma_eval_times(q_enable, check, table, challenges, row);
    if eval(q_enable, table, challenges, row) != 0 {
        reveal_with_fuel(fpow256, 3);
        reveal_with_fuel(pow256, 3);
        reveal_with_fuel(from_bytes_expr, 3);
        vstd::arithmetic::div_mod::lemma_small_mod(1, modulus());
        vstd::arithmetic::div_mod::lemma_small_mod(256, modulus());
        vstd::arithmetic::div_mod::lemma_small_mod(65536, modulus());
        assert(fpow256(1) == 256);
        assert(fpow256(2) == 65536);
        let raise: int = if l < u {
            65536
        } else {
            0
        };
        let d = lt_diff(l, u, 2);
        lemma_reduced(l - u, raise);
        vstd::arithmetic::div_mod::lemma_small_mod((l - u + raise) as nat, modulus());
        assert(d == l - u + raise);
        assert(0 <= d < 65536);
        let low = byte_of(d % 0x1_0000_0000_0000_0000int, 0);
        let high = byte_of(d % 0x1_0000_0000_0000_0000int, 1);
        assert(low == d % 256);
        assert(high == d / 256);
        assert(d == low + 256 * high);
        // The bytes spell the difference.
        let d0 = cell_at(diff[0], 0);
        let d1 = cell_at(diff[1], 0);
        lemma_eval_cell(diff[0], 0, table, challenges, row);
        lemma_eval_cell(diff[1], 0, table, challenges, row);
        lemma_eval_lit(0, table, challenges, row);
        lemma_eval_scaled(d0, 1, table, challenges, row);
        lemma_eval_scaled(d1, 256, table, challenges, row);
        lemma_eval_scaled(result, 65536, table, challenges, row);
        let head = diff.drop_last();
        assert(head.len() == 1);
        assert(head.last() == diff[0]);
        assert(head.drop_last().len() == 0);
        assert(diff.last() == diff[1]);
        let spelled = from_bytes_expr(diff, 0);
        assert(spelled == crate::expr::plus(
            crate::expr::plus(lit(0), Expr::Scaled(Box::new(d0), Fe::of_int(fpow256(0)))),
            Expr::Scaled(Box::new(d1), Fe::of_int(fpow256(1))),
        ));
        vstd::arithmetic::div_mod::lemma_small_mod(low as nat, modulus());
        vstd::arithmetic::div_mod::lemma_small_mod((256 * high) as nat, modulus());
        vstd::arithmetic::div_mod::lemma_small_mod(d as nat, modulus());
        assert(fmul(low, 1) == low);
        assert(fmul(high, 256) == 256 * high) by {
            assert(high * 256 == 256 * high);
        }
        let s0 = Expr::Scaled(Box::new(d0), Fe::of_int(fpow256(0)));
        let s1 = Expr::Scaled(Box::new(d1), Fe::of_int(fpow256(1)));
        lemma_eval_plus(lit(0), s0, table, challenges, row);
        lemma_eval_plus(crate::expr::plus(lit(0), s0), s1, table, challenges, row);
        assert(eval(d0, table, challenges, row) == low);
        assert(eval(d1, table, challenges, row) == high);
        assert(eval(s0, table, challenges, row) == low);
        assert(eval(s1, table, challenges, row) == 256 * high);
        assert(eval(crate::expr::plus(lit(0), s0), table, challenges, row) == low);
        assert(eval(spelled, table, challenges, row) == d);
        // The difference of the two is the difference that the bytes spell,
        // lowered by what the result raises it by.
        lemma_eval_minus(lhs, rhs, table, challenges, row);
        lemma_eval_minus(minus(lhs, rhs), spelled, table, challenges, row);
        lemma_eval_plus(
            minus(minus(lhs, rhs), spelled),
            Expr::Scaled(Box::new(result), Fe::of_int(fpow256(2))),
            table,
            challenges,
            row,
        );
        lemma_reduced(l - u, d);
        lemma_reduced(l - u - d, raise);
        vstd::arithmetic::div_mod::lemma_small_mod(raise as nat, modulus());
        assert(fmul(eval(result, table, challenges, row), 65536) == raise);
        vstd::arithmetic::div_mod::lemma_small_mod(0, modulus());
        assert(eval(check, table, challenges, row) == 0);
    }
}

/// The counts of a row of the table of a batch: the number of the
/// transactions of the block is at most the number up to and including it,
/// which is at most the number of headers, as is the sequence number.
pub proof fn lemma_counts_bounded(b: Batch, max_txs: nat, max_calldata: nat, n: int, r: int)
    requires
        b.wf(),
        b.all().len() == max_txs,
        max_txs >= 1,
        b.txs.len() <= max_txs,
        b.calldata_len() <= max_calldata,
        max_calldata >= 1,
        n >= used(max_txs, max_calldata),
        0 <= r < used(max_txs, max_calldata),
    ensures
        0 <= view_at(b, max_txs, r).num_txs <= view_at(b, max_txs, r).cum_num_txs <= max_txs,
        0 <= view_at(b, max_txs, r).tx_id <= max_txs,
{
    let hl = max_txs * TX_LEN;
    lemma_next_tx_id(b, max_txs, max_calldata, n, r);
    crate::tx_circuit::rows::lemma_view_first(b, max_txs);
    if r == 0 {
    } else if r <= hl {
        let (i, j) = crate::tx_circuit::rows::lemma_header_place(max_txs, r);
        crate::tx_circuit::rows::lemma_view_header(b, max_txs, i, j);
        reveal(Batch::header_view);
        if i < b.txs.len() {
            crate::tx_circuit::accounting::lemma_counts(
                b.txs,
                b.all()[i].block_number,
                b.txs.len(),
            );
        }
    } else {
        let p = r - 1 - hl;
        if p < b.calldata_len() {
            reveal(crate::tx_circuit::batch::calldata_row_view);
            crate::tx_circuit::rows::lemma_owner(b.txs, b.txs.len(), p);
            let o = crate::tx_circuit::rows::owner(b.txs, b.txs.len(), p);
            crate::tx_circuit::rows::lemma_view_calldata(b, max_txs, o.0, o.1);
        } else {
            crate::tx_circuit::rows::lemma_view_empty(b, max_txs, r);
        }
    }
}

/// The comparison of the number of the transactions before the block with
/// the sequence number holds on each row of the table of a batch.
pub proof fn lemma_lower_bound(
    c: &TxCircuitConfig,
    b: Batch,
    max_txs: nat,
    max_calldata: nat,
    end: nat,
    challenges: Seq<int>,
    r: int,
)
    requires
        valid(c, b, max_txs, max_calldata),
        max_txs < 65536,
        0 <= r < table(c, b, max_txs, max_calldata, end).len(),
    ensures
        polys_hold(
            lt_polys(
                cell_at(c.tx_table.q_enable, 0),
                minus(cell_at(c.cum_num_txs, 0), cell_at(c.num_txs, 0)),
                cell_at(c.tx_table.tx_id, 0),
                c.tx_id_gt_prev_cnt.lt,
                c.tx_id_gt_prev_cnt.diff@,
            ),
            table(c, b, max_txs, max_calldata, end),
            challenges,
            r,
        ),
{
    let t = table(c, b, max_txs, max_calldata, end);
    lemma_table_size(c, b, max_txs, max_calldata, end);
    let n = t.len() as int;
    vstd::arithmetic::div_mod::lemma_small_mod(r as nat, n as nat);
    let v = wrapped_view(b, max_txs, max_calldata, n, r);
    let q_enable = cell_at(c.tx_table.q_enable, 0);
    let tx_id = cell_at(c.tx_table.tx_id, 0);
    let cum = cell_at(c.cum_num_txs, 0);
    let num = cell_at(c.num_txs, 0);
    let side = c.tx_id_gt_prev_cnt;
    lemma_row_kind(c, b, max_txs, max_calldata, end, challenges, r, 0, TxFieldTag::Null);
    lemma_meta_cells(c, b, max_txs, max_calldata, end, challenges, r, 0);
    crate::tx_circuit::counting::lemma_compared_cells(
        c,
        b,
        max_txs,
        max_calldata,
        end,
        challenges,
        r,
    );
    lemma_eval_cell(side.lt, 0, t, challenges, r);
    reveal(valid);
    let l = v.cum_num_txs - v.num_txs;
    let u = v.tx_id;
    if eval(q_enable, t, challenges, r) != 0 {
        lemma_counts_bounded(b, max_txs, max_calldata, n, r);
        vstd::arithmetic::div_mod::lemma_small_mod(v.tx_id as nat, modulus());
        vstd::arithmetic::div_mod::lemma_small_mod(v.cum_num_txs as nat, modulus());
        vstd::arithmetic::div_mod::lemma_small_mod(v.num_txs as nat, modulus());
        lemma_eval_minus(cum, num, t, challenges, r);
        lemma_reduced(v.cum_num_txs, v.num_txs);
        vstd::arithmetic::div_mod::lemma_small_mod((v.cum_num_txs - v.num_txs) as nat, modulus());
        crate::gadgets::lemma_pow256_positive(0);
        crate::gadgets::lemma_pow256_positive(1);
        assert forall|i: int| 0 <= i < 2 implies cell(
            t,
            r,
            (#[trigger] side.diff@[i]).index as int,
        ) == byte_of(lt_diff(l, u, 2) % 0x1_0000_0000_0000_0000int, i as nat) by {
            lemma_eval_cell(side.diff@[i], 0, t, challenges, r);
            let x = byte_of(lt_diff(l, u, 2) % 0x1_0000_0000_0000_0000int, i as nat);
            assert(0 <= x < 256);
            vstd::arithmetic::div_mod::lemma_small_mod(x as nat, modulus());
        }
    }
    lemma_lt_polys(
        q_enable,
        minus(cum, num),
        tx_id,
        side.lt,
        side.diff@,
        l,
        u,
        t,
        challenges,
        r,
    );
}

/// The comparison of the sequence number with the number of the
/// transactions up to and including the block holds on each row of the
/// table of a batch.
pub proof fn lemma_upper_bound(
    c: &TxCircuitConfig,
    b: Batch,
    max_txs: nat,
    max_calldata: nat,
    end: nat,
    challenges: Seq<int>,
    r: int,
)
    requires
        valid(c, b, max_txs, max_calldata),
        max_txs < 65536,
        0 <= r < table(c, b, max_txs, max_calldata, end).len(),
    ensures
        polys_hold(
            lt_polys(
                cell_at(c.tx_table.q_enable, 0),
                cell_at(c.tx_table.tx_id, 0),
                cell_at(c.cum_num_txs, 0),
                c.tx_id_vs_cum_num_txs.lt_chip.lt,
                c.tx_id_vs_cum_num_txs.lt_chip.diff@,
            ),
            table(c, b, max_txs, max_calldata, end),
            challenges,
            r,
        ),
{
    let t = table(c, b, max_txs, max_calldata, end);
    lemma_table_size(c, b, max_txs, max_calldata, end);
    let n = t.len() as int;
    vstd::arithmetic::div_mod::lemma_small_mod(r as nat, n as nat);
    let v = wrapped_view(b, max_txs, max_calldata, n, r);
    let q_enable = cell_at(c.tx_table.q_enable, 0);
    let tx_id = cell_at(c.tx_table.tx_id, 0);
    let cum = cell_at(c.cum_num_txs, 0);
    let num = cell_at(c.num_txs, 0);
    let side = c.tx_id_vs_cum_num_txs.lt_chip;
    lemma_row_kind(c, b, max_txs, max_calldata, end, challenges, r, 0, TxFieldTag::Null);
    lemma_meta_cells(c, b, max_txs, max_calldata, end, challenges, r, 0);
    crate::tx_circuit::counting::lemma_compared_cells(
        c,
        b,
        max_txs,
        max_calldata,
        end,
        challenges,
        r,
    );
    lemma_eval_cell(side.lt, 0, t, challenges, r);
    reveal(valid);
    let l = v.tx_id;
    let u = v.cum_num_txs;
    if eval(q_enable, t, challenges, r) != 0 {
        lemma_counts_bounded(b, max_txs, max_calldata, n, r);
        vstd::arithmetic::div_mod::lemma_small_mod(v.tx_id as nat, modulus());
        vstd::arithmetic::div_mod::lemma_small_mod(v.cum_num_txs as nat, modulus());
        vstd::arithmetic::div_mod::lemma_small_mod(v.num_txs as nat, modulus());
        crate::gadgets::lemma_pow256_positive(0);
        crate::gadgets::lemma_pow256_positive(1);
        assert forall|i: int| 0 <= i < 2 implies cell(
            t,
            r,
            (#[trigger] side.diff@[i]).index as int,
        ) == byte_of(lt_diff(l, u, 2) % 0x1_0000_0000_0000_0000int, i as nat) by {
            lemma_eval_cell(side.diff@[i], 0, t, challenges, r);
            let x = byte_of(lt_diff(l, u, 2) % 0x1_0000_0000_0000_0000int, i as nat);
            assert(0 <= x < 256);
            vstd::arithmetic::div_mod::lemma_small_mod(x as nat, modulus());
        }
    }
    lemma_lt_polys(
        q_enable,
        tx_id,
        cum,
        side.lt,
        side.diff@,
        l,
        u,
        t,
        challenges,
        r,
    );
}

/// The gates of the gadgets of the circuit hold on the table of a batch
/// with fewer than 65536 headers whose padding is in the block zero.
pub proof fn theorem_gadget_gates(
    gates: Seq<GateView>,
    c: &TxCircuitConfig,
    b: Batch,
    max_txs: nat,
    max_calldata: nat,
    end: nat,
    challenges: Seq<int>,
)
    requires
        valid(c, b, max_txs, max_calldata),
        field_has_inverses(),
        padded(b),
        max_txs < 65536,
        all_hold(gates, table(c, b, max_txs, max_calldata, end), challenges),
    ensures
        all_hold(
            with_gadget_gates(gates, c),
            table(c, b, max_txs, max_calldata, end),
            challenges,
        ),
{
    let t = table(c, b, max_txs, max_calldata, end);
    let q_enable = cell_at(c.tx_table.q_enable, 0);
    let tx_id = cell_at(c.tx_table.tx_id, 0);
    theorem_encoders(gates, c, b, max_txs, max_calldata, end, challenges);
    let g2 = binary_number_gates(
        binary_number_gates(
            gates,
            c.tx_table.q_enable,
            Some(c.tx_table.tag),
            c.tx_tag_bits.bits@,
            first_indices(25),
        ),
        c.tx_table.q_enable,
        Some(c.tx_type),
        c.tx_type_bits.bits@,
        first_indices(5),
    );
    let g3_polys = seq![("", is_zero_poly(q_enable, tx_id, c.tx_id_is_zero.value_inv))];
    assert forall|r: int| 0 <= r < t.len() implies #[trigger] polys_hold(
        g3_polys,
        t,
        challenges,
        r,
    ) by {
        lemma_tx_id_is_zero(c, b, max_txs, max_calldata, end, challenges, r);
    }
    lemma_one_more(g2, "is_zero gate", g3_polys, t, challenges);
    let g3 = g2.push(("is_zero gate", g3_polys));
    let g4_polys = seq![
        (
            "",
            is_zero_poly(
                q_enable,
                minus(tx_id, cell_at(c.tx_table.tx_id, 1)),
                c.tx_id_unchanged.value_inv,
            ),
        ),
    ];
    assert forall|r: int| 0 <= r < t.len() implies #[trigger] polys_hold(
        g4_polys,
        t,
        challenges,
        r,
    ) by {
        lemma_tx_id_unchanged_tied(c, b, max_txs, max_calldata, end, challenges, r);
    }
    lemma_one_more(g3, "is_zero gate", g4_polys, t, challenges);
    let g4 = g3.push(("is_zero gate", g4_polys));
    let g5_polys = seq![
        (
            "",
            is_zero_poly(
                value_is_zero_enable(c),
                cell_at(c.tx_table.value, 0),
                c.value_is_zero.value_inv,
            ),
        ),
    ];
    assert forall|r: int| 0 <= r < t.len() implies #[trigger] polys_hold(
        g5_polys,
        t,
        challenges,
        r,
    ) by {
        lemma_value_is_zero_tied(c, b, max_txs, max_calldata, end, challenges, r);
    }
    lemma_one_more(g4, "is_zero gate", g5_polys, t, challenges);
    let g5 = g4.push(("is_zero gate", g5_polys));
    let g6_polys = seq![
        (
            "",
            is_zero_poly(
                block_num_enable(c),
                minus(cell_at(c.block_num, 1), cell_at(c.block_num, 0)),
                c.block_num_unchanged.value_inv,
            ),
        ),
    ];
    assert forall|r: int| 0 <= r < t.len() implies #[trigger] polys_hold(
        g6_polys,
        t,
        challenges,
        r,
    ) by {
        lemma_block_num_tied(c, b, max_txs, max_calldata, end, challenges, r);
    }
    lemma_one_more(g5, "is_zero gate", g6_polys, t, challenges);
    let g6 = g5.push(("is_zero gate", g6_polys));
    let g7_polys = lt_polys(
        q_enable,
        minus(cell_at(c.cum_num_txs, 0), cell_at(c.num_txs, 0)),
        tx_id,
        c.tx_id_gt_prev_cnt.lt,
        c.tx_id_gt_prev_cnt.diff@,
    );
    assert forall|r: int| 0 <= r < t.len() implies #[trigger] polys_hold(
        g7_polys,
        t,
        challenges,
        r,
    ) by {
        lemma_lower_bound(c, b, max_txs, max_calldata, end, challenges, r);
    }
    lemma_one_more(g6, "lt gate", g7_polys, t, challenges);
    let g7 = g6.push(("lt gate", g7_polys));
    let g8_polys = lt_polys(
        q_enable,
        tx_id,
        cell_at(c.cum_num_txs, 0),
        c.tx_id_vs_cum_num_txs.lt_chip.lt,
        c.tx_id_vs_cum_num_txs.lt_chip.diff@,
    );
    assert forall|r: int| 0 <= r < t.len() implies #[trigger] polys_hold(
        g8_polys,
        t,
        challenges,
        r,
    ) by {
        lemma_upper_bound(c, b, max_txs, max_calldata, end, challenges, r);
    }
    lemma_one_more(g7, "lt gate", g8_polys, t, challenges);
    let g8 = g7.push(("lt gate", g8_polys));
    let g9_polys = seq![
        (
            "",
            is_zero_poly(
                q_enable,
                minus(tx_id, cell_at(c.cum_num_txs, 0)),
                c.tx_id_vs_cum_num_txs.eq_chip.value_inv,
            ),
        ),
    ];
    assert forall|r: int| 0 <= r < t.len() implies #[trigger] polys_hold(
        g9_polys,
        t,
        challenges,
        r,
    ) by {
        lemma_equal_tied(c, b, max_txs, max_calldata, end, challenges, r);
    }
    lemma_one_more(g8, "is_zero gate", g9_polys, t, challenges);
    let g9 = g8.push(("is_zero gate", g9_polys));
    assert(g9 == with_gadget_gates(gates, c));
}

} // verus!
