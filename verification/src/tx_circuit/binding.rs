//! What the circuit that `new` configures enforces, read from the cells of
//! a table: what holds of every table that satisfies its gates, the kinds of
//! the rows being read from the column of the kinds.

use crate::constraint_builder::no_zero_divisors;
use crate::expr::cell;
use crate::expr::cell_at;
use crate::expr::eval;
use crate::expr::lit;
use crate::expr::minus;
use crate::expr::times;
use crate::expr::Column;
use crate::expr::Expr;
use crate::field::fadd;
use crate::field::fmul;
use crate::gadgets::first_indices;
use crate::gadgets::is_zero_expr;
use crate::gadgets::is_zero_poly;
use crate::semantics::lemma_eval_times;
use crate::gadgets::binary_number_gates;
use crate::gadgets::pow2;
use crate::plonk::GateView;
use crate::plonk::RangeLookup;
use crate::tx_circuit::bounded::all_in_range;
use crate::tx_circuit::configure::with_gadget_ranges;
use crate::tx_circuit::gates::with_tx_ranges;
use crate::semantics::lemma_eval_cell;
use crate::semantics::lemma_eval_lit;
use crate::semantics::lemma_eval_minus;
use crate::table::TxFieldTag;
use crate::tx_circuit::configure::with_gadget_gates;
use crate::tx_circuit::enforced::lemma_enforced_always;
use crate::tx_circuit::gadgetry::all_hold;
use crate::tx_circuit::gates::is_calldata;
use crate::tx_circuit::gates::is_tag;
use crate::tx_circuit::gates::with_tx_gates;
use crate::tx_circuit::kinds::law_encoder_enforced;
use crate::tx_circuit::kinds::lemma_configured_gates;
use crate::tx_circuit::TxCircuitConfig;
use crate::witness::ChallengeExprs;
use vstd::prelude::*;

verus! {

/// The table satisfies the gates that `new` adds after `gates`, and the two
/// tag encoders have the digits that `new` gives them.
pub open spec fn configured_holds(
    gates: Seq<GateView>,
    c: &TxCircuitConfig,
    ch: &ChallengeExprs,
    table: Seq<Seq<int>>,
    challenges: Seq<int>,
) -> bool {
    &&& c.tx_tag_bits.bits@.len() == 5
    &&& c.tx_type_bits.bits@.len() == 3
    &&& c.value_is_zero.value == c.tx_table.value
    &&& c.tx_id_is_zero.value == c.tx_table.tx_id
    &&& c.expressions_ok()
    &&& all_hold(with_tx_gates(with_gadget_gates(gates, c), c, ch), table, challenges)
}

/// Whether the row `at` of the table is enabled.
pub open spec fn is_enabled(c: &TxCircuitConfig, table: Seq<Seq<int>>, at: int) -> bool {
    cell(table, at, c.tx_table.q_enable.index as int) == 1
}

/// Whether the row `at` of the table is of the kind `tag`, by the column of
/// the kinds.
pub open spec fn is_of_kind(
    c: &TxCircuitConfig,
    table: Seq<Seq<int>>,
    at: int,
    tag: TxFieldTag,
) -> bool {
    cell(table, at, c.tx_table.tag.index as int) == tag.spec_index()
}

/// On every table that satisfies the configured circuit, the indicator of a
/// kind, read from any row at any rotation that leads to an enabled row,
/// evaluates to one exactly where the column of the kinds holds the kind on
/// that row; and the stored boolean `is_calldata` of that row says whether
/// it is a row of calldata.
pub proof fn law_kind_enforced(
    gates: Seq<GateView>,
    c: &TxCircuitConfig,
    ch: &ChallengeExprs,
    table: Seq<Seq<int>>,
    challenges: Seq<int>,
    r: int,
    rotation: int,
    tag: TxFieldTag,
)
    requires
        no_zero_divisors(),
        configured_holds(gates, c, ch, table, challenges),
        table.len() > 0,
        -1000 <= rotation <= 1000,
        is_enabled(c, table, r + rotation),
    ensures
        eval(is_tag(c, tag, rotation), table, challenges, r) == (if is_of_kind(
            c,
            table,
            r + rotation,
            tag,
        ) {
            1int
        } else {
            0int
        }),
        eval(cell_at(c.is_calldata, rotation), table, challenges, r) == (if is_of_kind(
            c,
            table,
            r + rotation,
            TxFieldTag::CallData,
        ) {
            1int
        } else {
            0int
        }),
{
    reveal_with_fuel(pow2, 9);
    let n = table.len() as int;
    let at = (r + rotation) % n;
    vstd::arithmetic::div_mod::lemma_mod_twice(r + rotation, n);
    vstd::arithmetic::div_mod::lemma_small_mod(at as nat, n as nat);
    lemma_configured_gates(gates, c, ch, table, challenges);
    let e1 = binary_number_gates(
        gates,
        c.tx_table.q_enable,
        Some(c.tx_table.tag),
        c.tx_tag_bits.bits@,
        first_indices(25),
    );
    law_encoder_enforced(
        e1,
        c.tx_table.q_enable,
        c.tx_type,
        c.tx_type_bits.bits@,
        first_indices(5),
        table,
        challenges,
        at,
        at,
        0,
        0,
    );
    law_encoder_enforced(
        gates,
        c.tx_table.q_enable,
        c.tx_table.tag,
        c.tx_tag_bits.bits@,
        first_indices(25),
        table,
        challenges,
        at,
        r,
        rotation,
        tag.spec_index(),
    );
    // The stored boolean is the indicator of the kind `CallData`.
    law_encoder_enforced(
        gates,
        c.tx_table.q_enable,
        c.tx_table.tag,
        c.tx_tag_bits.bits@,
        first_indices(25),
        table,
        challenges,
        at,
        at,
        0,
        TxFieldTag::CallData.spec_index(),
    );
    let selector = cell_at(c.tx_table.q_enable, 0);
    let indicator = is_tag(c, TxFieldTag::CallData, 0);
    let stored = cell_at(c.is_calldata, 0);
    assert(crate::plonk::polys_hold(is_calldata(c), table, challenges, at));
    assert(is_calldata(c)[0].1 == times(selector, times(lit(1), minus(indicator, stored))));
    lemma_eval_cell(c.tx_table.q_enable, 0, table, challenges, at);
    lemma_enforced_always(selector, minus(indicator, stored), table, challenges, at);
    lemma_eval_minus(indicator, stored, table, challenges, at);
    lemma_eval_cell(c.is_calldata, 0, table, challenges, at);
    lemma_eval_cell(c.is_calldata, rotation, table, challenges, r);
}

/// On every table that satisfies the configured circuit, the row after an
/// enabled row that is marked as the first carries the sequence number one.
pub proof fn law_first_row_bound(
    gates: Seq<GateView>,
    c: &TxCircuitConfig,
    ch: &ChallengeExprs,
    table: Seq<Seq<int>>,
    challenges: Seq<int>,
    r: int,
)
    requires
        configured_holds(gates, c, ch, table, challenges),
        0 <= r < table.len(),
        cell(table, r, c.q_first.index as int) == 1,
    ensures
        cell(table, r + 1, c.tx_table.tx_id.index as int) == 1,
{
    lemma_configured_gates(gates, c, ch, table, challenges);
    assert(crate::plonk::polys_hold(
        crate::tx_circuit::gates::tx_id_starts(c),
        table,
        challenges,
        r,
    ));
    lemma_eval_cell(c.q_first, 0, table, challenges, r);
    lemma_eval_cell(c.tx_table.tx_id, 1, table, challenges, r);
    crate::tx_circuit::enforced::law_start_enforced(c, table, challenges, r);
}

/// On every table that satisfies the configured circuit, from an enabled
/// row of a header to the next row, where that is an enabled row of a
/// header too: if the next row is a `Nonce` row, its sequence number is one
/// more; if it is not, the two rows carry the same sequence number and
/// agree in each of the eight cells that are computed once for each
/// transaction. So changing one of these cells on a row within a header
/// breaks the circuit.
pub proof fn law_header_rows_bound(
    gates: Seq<GateView>,
    c: &TxCircuitConfig,
    ch: &ChallengeExprs,
    table: Seq<Seq<int>>,
    challenges: Seq<int>,
    r: int,
)
    requires
        no_zero_divisors(),
        configured_holds(gates, c, ch, table, challenges),
        0 <= r < table.len(),
        is_enabled(c, table, r),
        is_enabled(c, table, r + 1),
        !is_of_kind(c, table, r, TxFieldTag::CallData),
        !is_of_kind(c, table, r + 1, TxFieldTag::CallData),
    ensures
        is_of_kind(c, table, r + 1, TxFieldTag::Nonce) ==> cell(
            table,
            r + 1,
            c.tx_table.tx_id.index as int,
        ) == fadd(cell(table, r, c.tx_table.tx_id.index as int), 1),
        !is_of_kind(c, table, r + 1, TxFieldTag::Nonce) ==> {
            &&& cell(table, r + 1, c.tx_table.tx_id.index as int) == cell(table, r, c.tx_table.tx_id.index as int)
            &&& cell(table, r + 1, c.tx_type.index as int) == cell(table, r, c.tx_type.index as int)
            &&& cell(table, r + 1, c.is_padding_tx.index as int) == cell(table, r, c.is_padding_tx.index as int)
            &&& cell(table, r + 1, c.sv_address.index as int) == cell(table, r, c.sv_address.index as int)
            &&& cell(table, r + 1, c.block_num.index as int) == cell(table, r, c.block_num.index as int)
            &&& cell(table, r + 1, c.total_l1_popped_before.index as int) == cell(table, r, c.total_l1_popped_before.index as int)
            &&& cell(table, r + 1, c.num_txs.index as int) == cell(table, r, c.num_txs.index as int)
            &&& cell(table, r + 1, c.cum_num_txs.index as int) == cell(table, r, c.cum_num_txs.index as int)
            &&& cell(table, r + 1, c.num_all_txs_acc.index as int) == cell(table, r, c.num_all_txs_acc.index as int)
        },
{
    law_kind_enforced(gates, c, ch, table, challenges, r, 0, TxFieldTag::Nonce);
    law_kind_enforced(gates, c, ch, table, challenges, r, 1, TxFieldTag::Nonce);
    lemma_configured_gates(gates, c, ch, table, challenges);
    assert(crate::plonk::polys_hold(
        crate::tx_circuit::gates::tx_id_transition(c),
        table,
        challenges,
        r,
    ));
    lemma_eval_cell(c.tx_table.q_enable, 0, table, challenges, r);
    lemma_eval_cell(c.tx_table.tx_id, 0, table, challenges, r);
    lemma_eval_cell(c.tx_table.tx_id, 1, table, challenges, r);
    lemma_eval_cell(c.tx_type, 0, table, challenges, r);
    lemma_eval_cell(c.tx_type, 1, table, challenges, r);
    lemma_eval_cell(c.is_padding_tx, 0, table, challenges, r);
    lemma_eval_cell(c.is_padding_tx, 1, table, challenges, r);
    lemma_eval_cell(c.sv_address, 0, table, challenges, r);
    lemma_eval_cell(c.sv_address, 1, table, challenges, r);
    lemma_eval_cell(c.block_num, 0, table, challenges, r);
    lemma_eval_cell(c.block_num, 1, table, challenges, r);
    lemma_eval_cell(c.total_l1_popped_before, 0, table, challenges, r);
    lemma_eval_cell(c.total_l1_popped_before, 1, table, challenges, r);
    lemma_eval_cell(c.num_txs, 0, table, challenges, r);
    lemma_eval_cell(c.num_txs, 1, table, challenges, r);
    lemma_eval_cell(c.cum_num_txs, 0, table, challenges, r);
    lemma_eval_cell(c.cum_num_txs, 1, table, challenges, r);
    lemma_eval_cell(c.num_all_txs_acc, 0, table, challenges, r);
    lemma_eval_cell(c.num_all_txs_acc, 1, table, challenges, r);
    crate::tx_circuit::enforced::law_transition_enforced(c, table, challenges, r);
}

/// The test for zero of a column, read on the next row, evaluates to what it
/// evaluates to on that row read in place; and where the polynomial that
/// ties it to the value evaluates to zero on that row under an enable of
/// one, it evaluates to one where the value is zero and to zero where it is
/// not.
pub proof fn lemma_test_enforced(
    enable: Expr,
    value: Column,
    value_inv: Column,
    table: Seq<Seq<int>>,
    challenges: Seq<int>,
    r: int,
    rotation: int,
)
    requires
        no_zero_divisors(),
        table.len() > 0,
        -1000 <= rotation <= 1000,
        eval(enable, table, challenges, (r + rotation) % (table.len() as int)) == 1,
        eval(
            is_zero_poly(enable, cell_at(value, 0), value_inv),
            table,
            challenges,
            (r + rotation) % (table.len() as int),
        ) == 0,
    ensures
        eval(is_zero_expr(cell_at(value, rotation), value_inv, rotation), table, challenges, r)
            == (if cell(table, r + rotation, value.index as int) == 0 {
            1int
        } else {
            0int
        }),
{
    let n = table.len() as int;
    let at = (r + rotation) % n;
    vstd::arithmetic::div_mod::lemma_mod_twice(r + rotation, n);
    vstd::arithmetic::div_mod::lemma_small_mod(at as nat, n as nat);
    let here = cell_at(value, 0);
    let inv_here = cell_at(value_inv, 0);
    let there = cell_at(value, rotation);
    let inv_there = cell_at(value_inv, rotation);
    lemma_eval_cell(value, 0, table, challenges, at);
    lemma_eval_cell(value_inv, 0, table, challenges, at);
    lemma_eval_cell(value, rotation, table, challenges, r);
    lemma_eval_cell(value_inv, rotation, table, challenges, r);
    lemma_eval_lit(1, table, challenges, at);
    lemma_eval_lit(1, table, challenges, r);
    lemma_eval_times(here, inv_here, table, challenges, at);
    lemma_eval_times(there, inv_there, table, challenges, r);
    lemma_eval_minus(lit(1), times(here, inv_here), table, challenges, at);
    lemma_eval_minus(lit(1), times(there, inv_there), table, challenges, r);
    let test = is_zero_expr(here, value_inv, 0);
    lemma_eval_times(enable, here, table, challenges, at);
    lemma_eval_times(times(enable, here), test, table, challenges, at);
    crate::util::lemma_eval_range(here, table, challenges, at);
    crate::util::lemma_eval_range(test, table, challenges, at);
    crate::constraint_builder::lemma_fmul_zero(eval(inv_here, table, challenges, at));
    vstd::arithmetic::div_mod::lemma_small_mod(1, crate::field::modulus());
}

/// On every table that satisfies the configured circuit, on an enabled
/// `CallDataRLC` row the flag of an empty value is zero or one. Where it is
/// one, the value of the row and the values of the two rows after it, the
/// length and the gas cost of the calldata, are zero. Where it is zero, the
/// value of the next row, the length, is not zero.
pub proof fn law_empty_calldata_bound(
    gates: Seq<GateView>,
    c: &TxCircuitConfig,
    ch: &ChallengeExprs,
    table: Seq<Seq<int>>,
    challenges: Seq<int>,
    r: int,
)
    requires
        no_zero_divisors(),
        configured_holds(gates, c, ch, table, challenges),
        0 <= r < table.len(),
        is_enabled(c, table, r),
        is_of_kind(c, table, r, TxFieldTag::CallDataRLC),
    ensures
        cell(table, r, c.is_none.index as int) == 0 || cell(table, r, c.is_none.index as int) == 1,
        cell(table, r, c.is_none.index as int) == 1 ==> {
            &&& cell(table, r, c.tx_table.value.index as int) == 0
            &&& cell(table, r + 1, c.tx_table.value.index as int) == 0
            &&& cell(table, r + 2, c.tx_table.value.index as int) == 0
        },
        cell(table, r, c.is_none.index as int) == 0 ==> cell(
            table,
            r + 1,
            c.tx_table.value.index as int,
        ) != 0,
{
    law_kind_enforced(gates, c, ch, table, challenges, r, 0, TxFieldTag::CallDataRLC);
    lemma_configured_gates(gates, c, ch, table, challenges);
    assert(crate::plonk::polys_hold(
        crate::tx_circuit::gates::basic_constraints(c),
        table,
        challenges,
        r,
    ));
    lemma_eval_cell(c.tx_table.q_enable, 0, table, challenges, r);
    lemma_eval_cell(c.is_none, 0, table, challenges, r);
    lemma_eval_cell(c.tx_table.value, 0, table, challenges, r);
    lemma_eval_cell(c.tx_table.value, 1, table, challenges, r);
    lemma_eval_cell(c.tx_table.value, 2, table, challenges, r);
    crate::tx_circuit::enforced::law_empty_calldata_enforced(c, table, challenges, r);
}

/// On every table that satisfies the configured circuit, on an enabled
/// `CallerAddress` row the padding flag is zero or one, and it is one
/// exactly if the sender is zero.
pub proof fn law_padding_bound(
    gates: Seq<GateView>,
    c: &TxCircuitConfig,
    ch: &ChallengeExprs,
    table: Seq<Seq<int>>,
    challenges: Seq<int>,
    r: int,
)
    requires
        no_zero_divisors(),
        configured_holds(gates, c, ch, table, challenges),
        0 <= r < table.len(),
        is_enabled(c, table, r),
        is_of_kind(c, table, r, TxFieldTag::CallerAddress),
    ensures
        cell(table, r, c.is_padding_tx.index as int) == 0 || cell(
            table,
            r,
            c.is_padding_tx.index as int,
        ) == 1,
        cell(table, r, c.is_padding_tx.index as int) == 1 <==> cell(
            table,
            r,
            c.tx_table.value.index as int,
        ) == 0,
{
    let t = table;
    vstd::arithmetic::div_mod::lemma_small_mod(r as nat, t.len());
    law_kind_enforced(gates, c, ch, t, challenges, r, 0, TxFieldTag::CallerAddress);
    law_kind_enforced(gates, c, ch, t, challenges, r, 0, TxFieldTag::CallDataLength);
    law_kind_enforced(gates, c, ch, t, challenges, r, 0, TxFieldTag::CallData);
    lemma_configured_gates(gates, c, ch, t, challenges);
    lemma_eval_cell(c.tx_table.q_enable, 0, t, challenges, r);
    lemma_eval_cell(c.is_padding_tx, 0, t, challenges, r);
    lemma_eval_cell(c.tx_table.value, 0, t, challenges, r);
    // The test of the value for zero is enabled on the row.
    let kinds = seq![
        is_tag(c, TxFieldTag::CallerAddress, 0),
        is_tag(c, TxFieldTag::CallDataLength, 0),
        is_tag(c, TxFieldTag::CallData, 0),
    ];
    assert forall|i: int| 0 <= i < kinds.len() && i != 0 implies eval(
        #[trigger] kinds[i],
        t,
        challenges,
        r,
    ) == 0 by {
        if i == 1 {
        } else {
        }
    }
    crate::semantics::lemma_eval_sum(kinds, 0, t, challenges, r);
    let parts = seq![cell_at(c.tx_table.q_enable, 0), crate::util::sum_expr(kinds)];
    assert forall|i: int| 0 <= i < parts.len() implies eval(
        #[trigger] parts[i],
        t,
        challenges,
        r,
    ) == 1 by {}
    crate::semantics::lemma_eval_and(parts, t, challenges, r);
    let enable = crate::tx_circuit::configure::value_is_zero_enable(c);
    assert(crate::plonk::polys_hold(
        crate::tx_circuit::kinds::value_is_zero_tie(c),
        t,
        challenges,
        r,
    ));
    assert(eval(crate::tx_circuit::kinds::value_is_zero_tie(c)[0].1, t, challenges, r) == 0);
    lemma_test_enforced(enable, c.tx_table.value, c.value_is_zero.value_inv, t, challenges, r, 0);
    // The flag is the test.
    assert(crate::plonk::polys_hold(
        crate::tx_circuit::gates::is_padding_tx(c),
        t,
        challenges,
        r,
    ));
    let selector = cell_at(c.tx_table.q_enable, 0);
    let kind = is_tag(c, TxFieldTag::CallerAddress, 0);
    let flag = cell_at(c.is_padding_tx, 0);
    let none = is_zero_expr(cell_at(c.tx_table.value, 0), c.value_is_zero.value_inv, 0);
    assert(crate::tx_circuit::gates::is_padding_tx(c)[0].1 == times(
        selector,
        times(times(lit(1), kind), minus(flag, none)),
    ));
    crate::tx_circuit::enforced::lemma_enforced(selector, kind, minus(flag, none), t, challenges, r);
    lemma_eval_minus(flag, none, t, challenges, r);
}

/// The gas that a byte of calldata costs, by its value in the field.
pub open spec fn byte_cost(value: int) -> int {
    if value == 0 {
        4
    } else {
        16
    }
}

/// On every table that satisfies the configured circuit, on an enabled row
/// of calldata that belongs to a transaction the final marker is zero or
/// one. Where it is zero, the next row is at the next position, carries the
/// same sequence number, and its fingerprint goes on from this row's by the
/// byte of the next row; and if the next row is an enabled row of calldata,
/// its gas cost goes on from this row's by the cost of its byte. Where it
/// is one, the next row carries another sequence number; and if the next
/// row is enabled and belongs to a transaction, it is at position zero and
/// its fingerprint is its byte, and, if it is a row of calldata, its gas
/// cost is the cost of its byte.
pub proof fn law_calldata_rows_bound(
    gates: Seq<GateView>,
    c: &TxCircuitConfig,
    ch: &ChallengeExprs,
    table: Seq<Seq<int>>,
    challenges: Seq<int>,
    r: int,
)
    requires
        no_zero_divisors(),
        configured_holds(gates, c, ch, table, challenges),
        0 <= r < table.len(),
        is_enabled(c, table, r),
        is_of_kind(c, table, r, TxFieldTag::CallData),
        cell(table, r, c.tx_table.tx_id.index as int) != 0,
    ensures
        ({
            let is_final = cell(table, r, c.is_final.index as int);
            let index = cell(table, r, c.tx_table.index.index as int);
            let index_next = cell(table, r + 1, c.tx_table.index.index as int);
            let tx_id = cell(table, r, c.tx_table.tx_id.index as int);
            let tx_id_next = cell(table, r + 1, c.tx_table.tx_id.index as int);
            let gas = cell(table, r, c.calldata_gas_cost_acc.index as int);
            let gas_next = cell(table, r + 1, c.calldata_gas_cost_acc.index as int);
            let rlc = cell(table, r, c.calldata_rlc.index as int);
            let rlc_next = cell(table, r + 1, c.calldata_rlc.index as int);
            let value_next = cell(table, r + 1, c.tx_table.value.index as int);
            let base = eval(ch.keccak_input, table, challenges, r);
            let calldata_next = is_enabled(c, table, r + 1) && is_of_kind(
                c,
                table,
                r + 1,
                TxFieldTag::CallData,
            );
            &&& is_final == 0 || is_final == 1
            &&& is_final == 0 ==> {
                &&& index_next == fadd(index, 1)
                &&& tx_id_next == tx_id
                &&& rlc_next == fadd(fmul(rlc, base), value_next)
                &&& calldata_next ==> gas_next == fadd(gas, byte_cost(value_next))
            }
            &&& is_final == 1 ==> {
                &&& tx_id_next != tx_id
                &&& is_enabled(c, table, r + 1) && tx_id_next != 0 ==> {
                    &&& index_next == 0
                    &&& rlc_next == value_next
                    &&& calldata_next ==> gas_next == byte_cost(value_next)
                }
            }
        }),
{
    let t = table;
    let n = t.len() as int;
    let next = (r + 1) % n;
    vstd::arithmetic::div_mod::lemma_small_mod(r as nat, n as nat);
    vstd::arithmetic::div_mod::lemma_mod_twice(r + 1, n);
    vstd::arithmetic::div_mod::lemma_small_mod(next as nat, n as nat);
    lemma_configured_gates(gates, c, ch, t, challenges);
    law_kind_enforced(gates, c, ch, t, challenges, r, 0, TxFieldTag::CallData);
    let q_enable = cell_at(c.tx_table.q_enable, 0);
    lemma_eval_cell(c.tx_table.q_enable, 0, t, challenges, r);
    lemma_eval_cell(c.tx_table.q_enable, 0, t, challenges, next);
    lemma_eval_cell(c.is_final, 0, t, challenges, r);
    lemma_eval_cell(c.tx_table.index, 0, t, challenges, r);
    lemma_eval_cell(c.tx_table.index, 1, t, challenges, r);
    lemma_eval_cell(c.tx_table.tx_id, 0, t, challenges, r);
    lemma_eval_cell(c.tx_table.tx_id, 1, t, challenges, r);
    lemma_eval_cell(c.calldata_gas_cost_acc, 0, t, challenges, r);
    lemma_eval_cell(c.calldata_gas_cost_acc, 1, t, challenges, r);
    lemma_eval_cell(c.calldata_rlc, 0, t, challenges, r);
    lemma_eval_cell(c.calldata_rlc, 1, t, challenges, r);
    lemma_eval_cell(c.tx_table.value, 1, t, challenges, r);
    // The row belongs to a transaction.
    assert(crate::plonk::polys_hold(crate::tx_circuit::kinds::tx_id_is_zero_tie(c), t, challenges, r));
    assert(eval(crate::tx_circuit::kinds::tx_id_is_zero_tie(c)[0].1, t, challenges, r) == 0);
    lemma_test_enforced(q_enable, c.tx_table.tx_id, c.tx_id_is_zero.value_inv, t, challenges, r, 0);
    assert(crate::plonk::polys_hold(
        crate::tx_circuit::gates::calldata_bytes(c, ch),
        t,
        challenges,
        r,
    ));
    crate::tx_circuit::enforced::law_calldata_enforced(c, ch, t, challenges, r);
    // The test whether the sequence number stays the same.
    let tx_id = cell_at(c.tx_table.tx_id, 0);
    let tx_id_next = cell_at(c.tx_table.tx_id, 1);
    let step = minus(tx_id, tx_id_next);
    let same = c.tx_id_unchanged.is_equal_expression;
    assert(same == is_zero_expr(step, c.tx_id_unchanged.value_inv, 0));
    assert(crate::plonk::polys_hold(
        crate::tx_circuit::kinds::tx_id_unchanged_tie(c),
        t,
        challenges,
        r,
    ));
    assert(eval(crate::tx_circuit::kinds::tx_id_unchanged_tie(c)[0].1, t, challenges, r) == 0);
    lemma_eval_times(q_enable, step, t, challenges, r);
    lemma_eval_times(times(q_enable, step), same, t, challenges, r);
    lemma_eval_minus(tx_id, tx_id_next, t, challenges, r);
    if eval(same, t, challenges, r) == 0 {
        crate::tx_circuit::enforced::lemma_not_zero(
            step,
            c.tx_id_unchanged.value_inv,
            0,
            t,
            challenges,
            r,
        );
    }
    if is_enabled(c, t, r + 1) {
        // Whether the next row belongs to a transaction.
        assert(crate::plonk::polys_hold(
            crate::tx_circuit::kinds::tx_id_is_zero_tie(c),
            t,
            challenges,
            next,
        ));
        assert(eval(crate::tx_circuit::kinds::tx_id_is_zero_tie(c)[0].1, t, challenges, next) == 0);
        lemma_test_enforced(q_enable, c.tx_table.tx_id, c.tx_id_is_zero.value_inv, t, challenges, r, 1);
        if is_of_kind(c, t, r + 1, TxFieldTag::CallData) {
            // The cost of the byte of the next row.
            law_kind_enforced(gates, c, ch, t, challenges, next, 0, TxFieldTag::CallerAddress);
            law_kind_enforced(gates, c, ch, t, challenges, next, 0, TxFieldTag::CallDataLength);
            law_kind_enforced(gates, c, ch, t, challenges, next, 0, TxFieldTag::CallData);
            let kinds = seq![
                is_tag(c, TxFieldTag::CallerAddress, 0),
                is_tag(c, TxFieldTag::CallDataLength, 0),
                is_tag(c, TxFieldTag::CallData, 0),
            ];
            assert forall|i: int| 0 <= i < kinds.len() && i != 2 implies eval(
                #[trigger] kinds[i],
                t,
                challenges,
                next,
            ) == 0 by {
                if i == 0 {
                } else {
                }
            }
            crate::semantics::lemma_eval_sum(kinds, 2, t, challenges, next);
            let parts = seq![q_enable, crate::util::sum_expr(kinds)];
            assert forall|i: int| 0 <= i < parts.len() implies eval(
                #[trigger] parts[i],
                t,
                challenges,
                next,
            ) == 1 by {}
            crate::semantics::lemma_eval_and(parts, t, challenges, next);
            let enable = crate::tx_circuit::configure::value_is_zero_enable(c);
            assert(crate::plonk::polys_hold(
                crate::tx_circuit::kinds::value_is_zero_tie(c),
                t,
                challenges,
                next,
            ));
            assert(eval(crate::tx_circuit::kinds::value_is_zero_tie(c)[0].1, t, challenges, next)
                == 0);
            lemma_test_enforced(
                enable,
                c.tx_table.value,
                c.value_is_zero.value_inv,
                t,
                challenges,
                r,
                1,
            );
            lemma_eval_lit(4, t, challenges, r);
            lemma_eval_lit(16, t, challenges, r);
            crate::util::lemma_select(
                is_zero_expr(cell_at(c.value_is_zero.value, 1), c.value_is_zero.value_inv, 1),
                lit(4),
                lit(16),
                t,
                challenges,
                r,
            );
        }
    }
}

/// Where the polynomial that ties a test for zero to its value evaluates to
/// zero under an enable of one, the test evaluates to one where the value
/// is zero and to zero where it is not.
pub proof fn lemma_test_of(
    enable: Expr,
    value: Expr,
    value_inv: Column,
    table: Seq<Seq<int>>,
    challenges: Seq<int>,
    r: int,
)
    requires
        no_zero_divisors(),
        eval(enable, table, challenges, r) == 1,
        eval(is_zero_poly(enable, value, value_inv), table, challenges, r) == 0,
    ensures
        eval(is_zero_expr(value, value_inv, 0), table, challenges, r) == (if eval(
            value,
            table,
            challenges,
            r,
        ) == 0 {
            1int
        } else {
            0int
        }),
{
    let inv = cell_at(value_inv, 0);
    let test = is_zero_expr(value, value_inv, 0);
    lemma_eval_lit(1, table, challenges, r);
    lemma_eval_times(value, inv, table, challenges, r);
    lemma_eval_minus(lit(1), times(value, inv), table, challenges, r);
    lemma_eval_times(enable, value, table, challenges, r);
    lemma_eval_times(times(enable, value), test, table, challenges, r);
    crate::util::lemma_eval_range(value, table, challenges, r);
    crate::util::lemma_eval_range(test, table, challenges, r);
    crate::constraint_builder::lemma_fmul_zero(eval(inv, table, challenges, r));
    vstd::arithmetic::div_mod::lemma_small_mod(1, crate::field::modulus());
}

/// On every table that satisfies the configured circuit, on an enabled
/// `BlockNumber` row of a transaction that is the last of its block, the
/// next row carrying the padding flag or another block number, the
/// sequence number is the number of the transactions up to and including
/// the block.
pub proof fn law_block_end_bound(
    gates: Seq<GateView>,
    c: &TxCircuitConfig,
    ch: &ChallengeExprs,
    table: Seq<Seq<int>>,
    challenges: Seq<int>,
    r: int,
)
    requires
        no_zero_divisors(),
        configured_holds(gates, c, ch, table, challenges),
        0 <= r < table.len(),
        is_enabled(c, table, r),
        is_of_kind(c, table, r, TxFieldTag::BlockNumber),
        cell(table, r, c.is_padding_tx.index as int) == 0,
        cell(table, r + 1, c.is_padding_tx.index as int) == 1 || cell(
            table,
            r + 1,
            c.block_num.index as int,
        ) != cell(table, r, c.block_num.index as int),
    ensures
        cell(table, r, c.tx_table.tx_id.index as int) == cell(table, r, c.cum_num_txs.index as int),
{
    let t = table;
    vstd::arithmetic::div_mod::lemma_small_mod(r as nat, t.len());
    law_kind_enforced(gates, c, ch, t, challenges, r, 0, TxFieldTag::BlockNumber);
    lemma_configured_gates(gates, c, ch, t, challenges);
    let q_enable = cell_at(c.tx_table.q_enable, 0);
    lemma_eval_cell(c.tx_table.q_enable, 0, t, challenges, r);
    lemma_eval_cell(c.is_padding_tx, 0, t, challenges, r);
    lemma_eval_cell(c.is_padding_tx, 1, t, challenges, r);
    lemma_eval_cell(c.block_num, 0, t, challenges, r);
    lemma_eval_cell(c.block_num, 1, t, challenges, r);
    lemma_eval_cell(c.tx_table.tx_id, 0, t, challenges, r);
    lemma_eval_cell(c.cum_num_txs, 0, t, challenges, r);
    // The stored boolean is the indicator of the kind.
    let indicator = is_tag(c, TxFieldTag::BlockNumber, 0);
    let stored = cell_at(c.is_tag_block_num, 0);
    assert(crate::plonk::polys_hold(
        crate::tx_circuit::gates::is_tag_block_num(c),
        t,
        challenges,
        r,
    ));
    assert(crate::tx_circuit::gates::is_tag_block_num(c)[0].1 == times(
        q_enable,
        times(lit(1), minus(indicator, stored)),
    ));
    lemma_enforced_always(q_enable, minus(indicator, stored), t, challenges, r);
    lemma_eval_minus(indicator, stored, t, challenges, r);
    // The test for a change of block.
    let parts = seq![q_enable, stored];
    assert forall|i: int| 0 <= i < parts.len() implies eval(
        #[trigger] parts[i],
        t,
        challenges,
        r,
    ) == 1 by {}
    crate::semantics::lemma_eval_and(parts, t, challenges, r);
    let step = minus(cell_at(c.block_num, 1), cell_at(c.block_num, 0));
    assert(crate::plonk::polys_hold(
        crate::tx_circuit::kinds::block_num_unchanged_tie(c),
        t,
        challenges,
        r,
    ));
    assert(eval(crate::tx_circuit::kinds::block_num_unchanged_tie(c)[0].1, t, challenges, r) == 0);
    lemma_test_of(
        crate::tx_circuit::configure::block_num_enable(c),
        step,
        c.block_num_unchanged.value_inv,
        t,
        challenges,
        r,
    );
    lemma_eval_minus(cell_at(c.block_num, 1), cell_at(c.block_num, 0), t, challenges, r);
    assert(crate::plonk::polys_hold(crate::tx_circuit::gates::last_tx_id(c), t, challenges, r));
    crate::tx_circuit::enforced::law_block_end_enforced(c, t, challenges, r);
}

/// On every table that satisfies the configured circuit and its range
/// checks, on an enabled `BlockNumber` row of a transaction whose sequence
/// number and cumulative count are below 65536, the sequence number is at
/// most the cumulative count.
pub proof fn law_sequence_number_bound(
    gates: Seq<GateView>,
    ranges: Seq<RangeLookup>,
    c: &TxCircuitConfig,
    ch: &ChallengeExprs,
    table: Seq<Seq<int>>,
    challenges: Seq<int>,
    r: int,
)
    requires
        no_zero_divisors(),
        configured_holds(gates, c, ch, table, challenges),
        all_in_range(with_tx_ranges(with_gadget_ranges(ranges, c), c), table, challenges),
        c.u8_table.bound == 256,
        c.tx_id_vs_cum_num_txs.lt_chip.diff@.len() == 2,
        0 <= r < table.len(),
        is_enabled(c, table, r),
        is_of_kind(c, table, r, TxFieldTag::BlockNumber),
        cell(table, r, c.is_padding_tx.index as int) == 0,
        cell(table, r, c.tx_table.tx_id.index as int) < 65536,
        cell(table, r, c.cum_num_txs.index as int) < 65536,
    ensures
        cell(table, r, c.tx_table.tx_id.index as int) <= cell(table, r, c.cum_num_txs.index as int),
{
    let t = table;
    law_kind_enforced(gates, c, ch, t, challenges, r, 0, TxFieldTag::BlockNumber);
    lemma_configured_gates(gates, c, ch, t, challenges);
    lemma_eval_cell(c.tx_table.q_enable, 0, t, challenges, r);
    lemma_eval_cell(c.is_padding_tx, 0, t, challenges, r);
    lemma_eval_cell(c.tx_table.tx_id, 0, t, challenges, r);
    lemma_eval_cell(c.cum_num_txs, 0, t, challenges, r);
    assert(crate::plonk::polys_hold(crate::tx_circuit::gates::tx_id_bound(c), t, challenges, r));
    assert(crate::plonk::polys_hold(crate::tx_circuit::kinds::upper_comparison(c), t, challenges, r));
    assert(crate::plonk::polys_hold(crate::tx_circuit::kinds::equal_tie(c), t, challenges, r));
    assert(eval(crate::tx_circuit::kinds::equal_tie(c)[0].1, t, challenges, r) == 0);
    // The bytes of the comparison are within their range.
    let all = with_tx_ranges(with_gadget_ranges(ranges, c), c);
    let q_enable = cell_at(c.tx_table.q_enable, 0);
    let first = ranges.len() as int;
    let upper = crate::gadgets::lt_ranges(
        q_enable,
        c.tx_id_vs_cum_num_txs.lt_chip.diff@,
        c.u8_table,
        2,
    );
    assert forall|i: int| 0 <= i < 2 implies eval(
        times(q_enable, cell_at(#[trigger] c.tx_id_vs_cum_num_txs.lt_chip.diff@[i], 0)),
        t,
        challenges,
        r,
    ) < 256 by {
        assert(all[first + 2 + i] == upper[i]);
        assert(crate::plonk::range_holds(
            all[first + 2 + i].input,
            all[first + 2 + i].table.bound as int,
            t,
            challenges,
            r,
        ));
    }
    crate::tx_circuit::enforced::law_bound_enforced(c, t, challenges, r);
}

} // verus!
