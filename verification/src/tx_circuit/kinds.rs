//! What the gates of a tag encoder enforce: on every table that satisfies
//! them, the cells of the digits of an enabled row hold binary digits, and
//! these spell the number in the cell of the value. So the indicator of a
//! number evaluates to one exactly where the cell of the value holds the
//! number.

use crate::constraint_builder::no_zero_divisors;
use crate::expr::cell;
use crate::expr::cell_at;
use crate::expr::eval;
use crate::expr::lit;
use crate::expr::minus;
use crate::expr::times;
use crate::expr::Column;
use crate::gadgets::binary_number_gates;
use crate::gadgets::bit_gates;
use crate::gadgets::bits_value_expr;
use crate::gadgets::digit;
use crate::gadgets::lemma_halved;
use crate::gadgets::lemma_value_equals;
use crate::gadgets::out_of_range_polys;
use crate::gadgets::pow2;
use crate::gadgets::value_equals_expr;
use crate::plonk::polys_hold;
use crate::plonk::GateView;
use crate::semantics::lemma_eval_cell;
use crate::semantics::lemma_eval_lit;
use crate::semantics::lemma_eval_minus;
use crate::semantics::lemma_eval_times;
use crate::expr::Constraint;
use crate::gadgets::first_indices;
use crate::gadgets::is_zero_poly;
use crate::gadgets::lt_polys;
use crate::tx_circuit::configure::block_num_enable;
use crate::tx_circuit::configure::value_is_zero_enable;
use crate::tx_circuit::configure::with_gadget_gates;
use crate::tx_circuit::gadgetry::all_hold;
use crate::tx_circuit::gates::basic_constraints;
use crate::tx_circuit::gates::calldata_byte;
use crate::tx_circuit::gates::calldata_bytes;
use crate::tx_circuit::gates::calldata_init;
use crate::tx_circuit::gates::calldata_last;
use crate::tx_circuit::gates::calldata_lookup_condition;
use crate::tx_circuit::gates::caller_address;
use crate::tx_circuit::gates::copy_block_num;
use crate::tx_circuit::gates::copy_tx_nonce;
use crate::tx_circuit::gates::hash_tag_lookup_condition;
use crate::tx_circuit::gates::is_calldata;
use crate::tx_circuit::gates::is_caller_address;
use crate::tx_circuit::gates::is_chain_id;
use crate::tx_circuit::gates::is_l1_msg;
use crate::tx_circuit::gates::is_padding_tx;
use crate::tx_circuit::gates::is_tag_block_num;
use crate::tx_circuit::gates::keccak_lookup_condition;
use crate::tx_circuit::gates::l1_msg_gas_cost;
use crate::tx_circuit::gates::l1_msg_lookup_condition;
use crate::tx_circuit::gates::last_tx_id;
use crate::tx_circuit::gates::num_all_txs;
use crate::tx_circuit::gates::sign_tag_lookup_condition;
use crate::tx_circuit::gates::signature_v;
use crate::tx_circuit::gates::tx_id_bound;
use crate::tx_circuit::gates::tx_id_starts;
use crate::tx_circuit::gates::tx_id_transition;
use crate::tx_circuit::gates::with_tx_gates;
use crate::tx_circuit::TxCircuitConfig;
use crate::witness::ChallengeExprs;
use crate::tx_circuit::gadgetry::lemma_bits_value;
use crate::util::lemma_eval_range;
use vstd::prelude::*;

verus! {

/// Every polynomial of the list evaluates to zero on every row of the
/// table.
pub open spec fn everywhere(
    polys: Seq<Constraint>,
    table: Seq<Seq<int>>,
    challenges: Seq<int>,
) -> bool {
    forall|r: int| 0 <= r < table.len() ==> #[trigger] polys_hold(polys, table, challenges, r)
}

/// Gates that hold with one more gate hold without it.
pub proof fn lemma_one_less(
    gates: Seq<GateView>,
    gate: GateView,
    table: Seq<Seq<int>>,
    challenges: Seq<int>,
)
    requires
        all_hold(gates.push(gate), table, challenges),
    ensures
        all_hold(gates, table, challenges),
        everywhere(gate.1, table, challenges),
{
    let more = gates.push(gate);
    assert forall|g: int, r: int| 0 <= g < gates.len() && 0 <= r < table.len() implies #[trigger] polys_hold(
        gates[g].1,
        table,
        challenges,
        r,
    ) by {
        assert(more[g] == gates[g]);
        assert(polys_hold(more[g].1, table, challenges, r));
    }
    assert forall|r: int| 0 <= r < table.len() implies #[trigger] polys_hold(
        gate.1,
        table,
        challenges,
        r,
    ) by {
        assert(more[gates.len() as int] == gate);
        assert(polys_hold(more[gates.len() as int].1, table, challenges, r));
    }
}

/// On every table that satisfies the gates that make each digit zero or
/// one, the cells of the digits of an enabled row hold zero or one, and the
/// gates before them hold too.
pub proof fn lemma_bits_enforced(
    gates: Seq<GateView>,
    selector: Column,
    bits: Seq<Column>,
    n: nat,
    table: Seq<Seq<int>>,
    challenges: Seq<int>,
    at: int,
)
    requires
        no_zero_divisors(),
        n <= bits.len(),
        all_hold(bit_gates(gates, selector, bits, n), table, challenges),
        0 <= at < table.len(),
        cell(table, at, selector.index as int) == 1,
    ensures
        all_hold(gates, table, challenges),
        forall|i: int|
            0 <= i < n ==> cell(table, at, (#[trigger] bits[i]).index as int) == 0 || cell(
                table,
                at,
                bits[i].index as int,
            ) == 1,
    decreases n,
{
    if n > 0 {
        let before = bit_gates(gates, selector, bits, (n - 1) as nat);
        let bit = cell_at(bits[n - 1], 0);
        let poly = times(times(cell_at(selector, 0), bit), minus(lit(1), bit));
        let gate = ("bit column is 0 or 1", seq![("", poly)]);
        lemma_one_less(before, gate, table, challenges);
        lemma_bits_enforced(gates, selector, bits, (n - 1) as nat, table, challenges, at);
        assert(polys_hold(gate.1, table, challenges, at));
        assert(eval(gate.1[0].1, table, challenges, at) == 0);
        lemma_eval_cell(selector, 0, table, challenges, at);
        lemma_eval_cell(bits[n - 1], 0, table, challenges, at);
        lemma_eval_lit(1, table, challenges, at);
        lemma_eval_minus(lit(1), bit, table, challenges, at);
        lemma_eval_times(cell_at(selector, 0), bit, table, challenges, at);
        lemma_eval_times(times(cell_at(selector, 0), bit), minus(lit(1), bit), table, challenges, at);
        lemma_eval_range(bit, table, challenges, at);
        lemma_eval_range(minus(lit(1), bit), table, challenges, at);
    }
}

/// The number that binary digits spell, the highest place first.
pub open spec fn number_of(digits: Seq<int>) -> nat
    decreases digits.len(),
{
    if digits.len() == 0 {
        0
    } else {
        (2 * number_of(digits.drop_last()) + digits.last()) as nat
    }
}

/// Binary digits are the digits of the number that they spell, which is
/// below two to the power of their number.
pub proof fn lemma_number_digits(digits: Seq<int>, i: int)
    requires
        forall|k: int| 0 <= k < digits.len() ==> #[trigger] digits[k] == 0 || digits[k] == 1,
        0 <= i < digits.len(),
    ensures
        number_of(digits) < pow2(digits.len()),
        digit(number_of(digits), (digits.len() - 1 - i) as nat) == digits[i],
    decreases digits.len(),
{
    let head = digits.drop_last();
    let v = number_of(digits);
    assert(digits.last() == digits[digits.len() - 1]);
    assert forall|k: int| 0 <= k < head.len() implies #[trigger] head[k] == 0 || head[k] == 1 by {
        assert(head[k] == digits[k]);
    }
    if head.len() > 0 {
        lemma_number_digits(head, 0);
    }
    assert(number_of(head) < pow2(head.len()));
    assert(pow2(digits.len()) == 2 * pow2(head.len()));
    assert(v == 2 * number_of(head) + digits.last());
    assert(v / 2 == number_of(head));
    assert(v % 2 == digits.last());
    if i < digits.len() - 1 {
        lemma_number_digits(head, i);
        lemma_halved(v, (head.len() - 1 - i) as nat);
        assert(head[i] == digits[i]);
    }
}

/// The cells of the digits of the row `at`.
pub open spec fn digits_at(bits: Seq<Column>, table: Seq<Seq<int>>, at: int) -> Seq<int> {
    Seq::new(bits.len(), |i: int| cell(table, at, bits[i].index as int))
}

/// On every table that satisfies the gates of a tag encoder, on an enabled
/// row the cells of the digits spell the number in the cell of the value,
/// and the indicator of a number, read from any row at any rotation that
/// leads to the row, evaluates to one exactly where the cell of the value
/// holds the number.
pub proof fn law_encoder_enforced(
    gates: Seq<GateView>,
    selector: Column,
    value: Column,
    bits: Seq<Column>,
    valid: Seq<u64>,
    table: Seq<Seq<int>>,
    challenges: Seq<int>,
    at: int,
    r: int,
    rotation: int,
    w: nat,
)
    requires
        no_zero_divisors(),
        bits.len() <= 8,
        w < pow2(bits.len()),
        all_hold(binary_number_gates(gates, selector, Some(value), bits, valid), table, challenges),
        0 <= at < table.len(),
        (r + rotation) % (table.len() as int) == at,
        -1000 <= rotation <= 1000,
        cell(table, at, selector.index as int) == 1,
    ensures
        all_hold(gates, table, challenges),
        eval(value_equals_expr(bits, w, rotation), table, challenges, r) == (if cell(
            table,
            at,
            value.index as int,
        ) == w {
            1int
        } else {
            0int
        }),
{
    reveal_with_fuel(pow2, 9);
    let g1 = bit_gates(gates, selector, bits, bits.len());
    let tie = seq![
        ("", times(cell_at(selector, 0), minus(bits_value_expr(bits, 0), cell_at(value, 0)))),
    ];
    let tie_gate = ("binary number value", tie);
    let g2 = g1.push(tie_gate);
    let polys = out_of_range_polys(cell_at(selector, 0), bits, valid, pow2(bits.len()));
    let whole = binary_number_gates(gates, selector, Some(value), bits, valid);
    if polys.len() > 0 {
        assert(whole == g2.push(("binary number value in range", polys)));
        lemma_one_less(g2, ("binary number value in range", polys), table, challenges);
    } else {
        assert(whole == g2);
    }
    lemma_one_less(g1, tie_gate, table, challenges);
    lemma_bits_enforced(gates, selector, bits, bits.len(), table, challenges, at);
    let digits = digits_at(bits, table, at);
    let v = number_of(digits);
    vstd::arithmetic::div_mod::lemma_small_mod(at as nat, table.len());
    assert forall|i: int| 0 <= i < bits.len() implies cell(
        table,
        at,
        (#[trigger] bits[i]).index as int,
    ) == digit(v, (bits.len() - 1 - i) as nat) && cell(
        table,
        r + rotation,
        bits[i].index as int,
    ) == digit(v, (bits.len() - 1 - i) as nat) by {
        lemma_number_digits(digits, i);
    }
    if bits.len() > 0 {
        lemma_number_digits(digits, 0);
    }
    lemma_value_equals(bits, v, w, rotation, table, challenges, r);
    // The digits spell what the cell of the value holds.
    lemma_bits_value(bits, v, table, challenges, at);
    vstd::arithmetic::div_mod::lemma_small_mod(v, pow2(bits.len()));
    assert(polys_hold(tie_gate.1, table, challenges, at));
    assert(eval(tie[0].1, table, challenges, at) == 0);
    lemma_eval_cell(selector, 0, table, challenges, at);
    lemma_eval_cell(value, 0, table, challenges, at);
    lemma_eval_times(
        cell_at(selector, 0),
        minus(bits_value_expr(bits, 0), cell_at(value, 0)),
        table,
        challenges,
        at,
    );
    lemma_eval_minus(bits_value_expr(bits, 0), cell_at(value, 0), table, challenges, at);
}

/// The polynomials of the gadget gate `tx_id_is_zero_tie`.
pub open spec fn tx_id_is_zero_tie(c: &TxCircuitConfig) -> Seq<Constraint> {
    seq![("", is_zero_poly(cell_at(c.tx_table.q_enable, 0), cell_at(c.tx_table.tx_id, 0), c.tx_id_is_zero.value_inv))]
}

/// The polynomials of the gadget gate `tx_id_unchanged_tie`.
pub open spec fn tx_id_unchanged_tie(c: &TxCircuitConfig) -> Seq<Constraint> {
    seq![("", is_zero_poly(cell_at(c.tx_table.q_enable, 0), minus(cell_at(c.tx_table.tx_id, 0), cell_at(c.tx_table.tx_id, 1)), c.tx_id_unchanged.value_inv))]
}

/// The polynomials of the gadget gate `value_is_zero_tie`.
pub open spec fn value_is_zero_tie(c: &TxCircuitConfig) -> Seq<Constraint> {
    seq![("", is_zero_poly(value_is_zero_enable(c), cell_at(c.tx_table.value, 0), c.value_is_zero.value_inv))]
}

/// The polynomials of the gadget gate `block_num_unchanged_tie`.
pub open spec fn block_num_unchanged_tie(c: &TxCircuitConfig) -> Seq<Constraint> {
    seq![("", is_zero_poly(block_num_enable(c), minus(cell_at(c.block_num, 1), cell_at(c.block_num, 0)), c.block_num_unchanged.value_inv))]
}

/// The polynomials of the gadget gate `lower_comparison`.
pub open spec fn lower_comparison(c: &TxCircuitConfig) -> Seq<Constraint> {
    lt_polys(cell_at(c.tx_table.q_enable, 0), minus(cell_at(c.cum_num_txs, 0), cell_at(c.num_txs, 0)), cell_at(c.tx_table.tx_id, 0), c.tx_id_gt_prev_cnt.lt, c.tx_id_gt_prev_cnt.diff@)
}

/// The polynomials of the gadget gate `upper_comparison`.
pub open spec fn upper_comparison(c: &TxCircuitConfig) -> Seq<Constraint> {
    lt_polys(cell_at(c.tx_table.q_enable, 0), cell_at(c.tx_table.tx_id, 0), cell_at(c.cum_num_txs, 0), c.tx_id_vs_cum_num_txs.lt_chip.lt, c.tx_id_vs_cum_num_txs.lt_chip.diff@)
}

/// The polynomials of the gadget gate `equal_tie`.
pub open spec fn equal_tie(c: &TxCircuitConfig) -> Seq<Constraint> {
    seq![("", is_zero_poly(cell_at(c.tx_table.q_enable, 0), minus(cell_at(c.tx_table.tx_id, 0), cell_at(c.cum_num_txs, 0)), c.tx_id_vs_cum_num_txs.eq_chip.value_inv))]
}

/// The gates of the two tag encoders, as `new` adds them after `gates`.
pub open spec fn encoder_gates(gates: Seq<GateView>, c: &TxCircuitConfig) -> Seq<GateView> {
    binary_number_gates(
        binary_number_gates(
            gates,
            c.tx_table.q_enable,
            Some(c.tx_table.tag),
            c.tx_tag_bits.bits@,
            first_indices(25),
        ),
        c.tx_table.q_enable,
        Some(c.tx_type),
        c.tx_type_bits.bits@,
        first_indices(5),
    )
}

/// On every table that satisfies the gates that `new` adds, each gate of the
/// circuit and of its gadgets holds on every row.
pub proof fn lemma_configured_gates(
    gates: Seq<GateView>,
    c: &TxCircuitConfig,
    ch: &ChallengeExprs,
    table: Seq<Seq<int>>,
    challenges: Seq<int>,
)
    requires
        all_hold(with_tx_gates(with_gadget_gates(gates, c), c, ch), table, challenges),
    ensures
        all_hold(encoder_gates(gates, c), table, challenges),
        everywhere(tx_id_starts(c), table, challenges),
        everywhere(tx_id_transition(c), table, challenges),
        everywhere(basic_constraints(c), table, challenges),
        everywhere(is_calldata(c), table, challenges),
        everywhere(is_caller_address(c), table, challenges),
        everywhere(is_chain_id(c), table, challenges),
        everywhere(is_tag_block_num(c), table, challenges),
        everywhere(is_l1_msg(c), table, challenges),
        everywhere(calldata_lookup_condition(c), table, challenges),
        everywhere(sign_tag_lookup_condition(c), table, challenges),
        everywhere(hash_tag_lookup_condition(c), table, challenges),
        everywhere(l1_msg_lookup_condition(c), table, challenges),
        everywhere(keccak_lookup_condition(c), table, challenges),
        everywhere(l1_msg_gas_cost(c), table, challenges),
        everywhere(copy_tx_nonce(c), table, challenges),
        everywhere(copy_block_num(c), table, challenges),
        everywhere(num_all_txs(c), table, challenges),
        everywhere(is_padding_tx(c), table, challenges),
        everywhere(last_tx_id(c), table, challenges),
        everywhere(tx_id_bound(c), table, challenges),
        everywhere(calldata_last(c), table, challenges),
        everywhere(calldata_byte(c), table, challenges),
        everywhere(calldata_init(c), table, challenges),
        everywhere(calldata_bytes(c, ch), table, challenges),
        everywhere(signature_v(c), table, challenges),
        everywhere(caller_address(c), table, challenges),
        everywhere(tx_id_is_zero_tie(c), table, challenges),
        everywhere(tx_id_unchanged_tie(c), table, challenges),
        everywhere(value_is_zero_tie(c), table, challenges),
        everywhere(block_num_unchanged_tie(c), table, challenges),
        everywhere(lower_comparison(c), table, challenges),
        everywhere(upper_comparison(c), table, challenges),
        everywhere(equal_tie(c), table, challenges),
{
    let g0 = with_gadget_gates(gates, c);
    let g1 = g0.push(("tx_id starts with 1", tx_id_starts(c)));
    let g2 = g1.push(("tx_id transition in the fixed part of tx table", tx_id_transition(c)));
    let g3 = g2.push(("basic constraints", basic_constraints(c)));
    let g4 = g3.push(("is_calldata", is_calldata(c)));
    let g5 = g4.push(("is_caller_address", is_caller_address(c)));
    let g6 = g5.push(("is_chain_id", is_chain_id(c)));
    let g7 = g6.push(("is_tag_block_num", is_tag_block_num(c)));
    let g8 = g7.push(("is_l1_msg", is_l1_msg(c)));
    let g9 = g8.push(("calldata lookup into tx table condition", calldata_lookup_condition(c)));
    let g10 = g9.push(("sign tag lookup into RLP table condition", sign_tag_lookup_condition(c)));
    let g11 = g10.push(("hash tag lookup into RLP table condition", hash_tag_lookup_condition(c)));
    let g12 = g11.push(("l1 msg lookup into RLP table condition", l1_msg_lookup_condition(c)));
    let g13 = g12.push(("lookup into Keccak table condition", keccak_lookup_condition(c)));
    let g14 = g13.push(("tx_gas_cost == 0 for L1 msg", l1_msg_gas_cost(c)));
    let g15 = g14.push(("copy tx_nonce", copy_tx_nonce(c)));
    let g16 = g15.push(("copy block_num", copy_block_num(c)));
    let g17 = g16.push(("num_all_txs in a block", num_all_txs(c)));
    let g18 = g17.push(("is_padding_tx", is_padding_tx(c)));
    let g19 = g18.push(("last non-padding tx must have tx_id == cum_num_txs", last_tx_id(c)));
    let g20 = g19.push(("tx_id <= cum_num_txs", tx_id_bound(c)));
    let g21 = g20.push(("last row of call data", calldata_last(c)));
    let g22 = g21.push(("calldata_byte == tx_table.value", calldata_byte(c)));
    let g23 = g22.push(("tx call data init", calldata_init(c)));
    let g24 = g23.push(("tx call data bytes", calldata_bytes(c, ch)));
    let g25 = g24.push(("tx signature v", signature_v(c)));
    let g26 = g25.push(("caller address == sv_address if it's not zero and tx_type != L1Msg", caller_address(c)));
    assert(g26 == with_tx_gates(g0, c, ch));
    lemma_one_less(g25, ("caller address == sv_address if it's not zero and tx_type != L1Msg", caller_address(c)), table, challenges);
    lemma_one_less(g24, ("tx signature v", signature_v(c)), table, challenges);
    lemma_one_less(g23, ("tx call data bytes", calldata_bytes(c, ch)), table, challenges);
    lemma_one_less(g22, ("tx call data init", calldata_init(c)), table, challenges);
    lemma_one_less(g21, ("calldata_byte == tx_table.value", calldata_byte(c)), table, challenges);
    lemma_one_less(g20, ("last row of call data", calldata_last(c)), table, challenges);
    lemma_one_less(g19, ("tx_id <= cum_num_txs", tx_id_bound(c)), table, challenges);
    lemma_one_less(g18, ("last non-padding tx must have tx_id == cum_num_txs", last_tx_id(c)), table, challenges);
    lemma_one_less(g17, ("is_padding_tx", is_padding_tx(c)), table, challenges);
    lemma_one_less(g16, ("num_all_txs in a block", num_all_txs(c)), table, challenges);
    lemma_one_less(g15, ("copy block_num", copy_block_num(c)), table, challenges);
    lemma_one_less(g14, ("copy tx_nonce", copy_tx_nonce(c)), table, challenges);
    lemma_one_less(g13, ("tx_gas_cost == 0 for L1 msg", l1_msg_gas_cost(c)), table, challenges);
    lemma_one_less(g12, ("lookup into Keccak table condition", keccak_lookup_condition(c)), table, challenges);
    lemma_one_less(g11, ("l1 msg lookup into RLP table condition", l1_msg_lookup_condition(c)), table, challenges);
    lemma_one_less(g10, ("hash tag lookup into RLP table condition", hash_tag_lookup_condition(c)), table, challenges);
    lemma_one_less(g9, ("sign tag lookup into RLP table condition", sign_tag_lookup_condition(c)), table, challenges);
    lemma_one_less(g8, ("calldata lookup into tx table condition", calldata_lookup_condition(c)), table, challenges);
    lemma_one_less(g7, ("is_l1_msg", is_l1_msg(c)), table, challenges);
    lemma_one_less(g6, ("is_tag_block_num", is_tag_block_num(c)), table, challenges);
    lemma_one_less(g5, ("is_chain_id", is_chain_id(c)), table, challenges);
    lemma_one_less(g4, ("is_caller_address", is_caller_address(c)), table, challenges);
    lemma_one_less(g3, ("is_calldata", is_calldata(c)), table, challenges);
    lemma_one_less(g2, ("basic constraints", basic_constraints(c)), table, challenges);
    lemma_one_less(g1, ("tx_id transition in the fixed part of tx table", tx_id_transition(c)), table, challenges);
    lemma_one_less(g0, ("tx_id starts with 1", tx_id_starts(c)), table, challenges);
    let e1 = binary_number_gates(
        gates,
        c.tx_table.q_enable,
        Some(c.tx_table.tag),
        c.tx_tag_bits.bits@,
        first_indices(25),
    );
    let e2 = binary_number_gates(
        e1,
        c.tx_table.q_enable,
        Some(c.tx_type),
        c.tx_type_bits.bits@,
        first_indices(5),
    );
    let h0 = e2;
    let h1 = h0.push(("is_zero gate", tx_id_is_zero_tie(c)));
    let h2 = h1.push(("is_zero gate", tx_id_unchanged_tie(c)));
    let h3 = h2.push(("is_zero gate", value_is_zero_tie(c)));
    let h4 = h3.push(("is_zero gate", block_num_unchanged_tie(c)));
    let h5 = h4.push(("lt gate", lower_comparison(c)));
    let h6 = h5.push(("lt gate", upper_comparison(c)));
    let h7 = h6.push(("is_zero gate", equal_tie(c)));
    assert(h7 == g0);
    lemma_one_less(h6, ("is_zero gate", equal_tie(c)), table, challenges);
    lemma_one_less(h5, ("lt gate", upper_comparison(c)), table, challenges);
    lemma_one_less(h4, ("lt gate", lower_comparison(c)), table, challenges);
    lemma_one_less(h3, ("is_zero gate", block_num_unchanged_tie(c)), table, challenges);
    lemma_one_less(h2, ("is_zero gate", value_is_zero_tie(c)), table, challenges);
    lemma_one_less(h1, ("is_zero gate", tx_id_unchanged_tie(c)), table, challenges);
    lemma_one_less(h0, ("is_zero gate", tx_id_is_zero_tie(c)), table, challenges);
}

} // verus!
