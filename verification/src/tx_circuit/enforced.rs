//! What the gates of the circuit enforce: what holds of every table that
//! satisfies them, whoever filled it in.
//!
//! Each law takes a row on which a gate holds and its selector is on, and
//! says what the cells of the row and of the rows after it then are to one
//! another.

use crate::constraint_builder::boolean_poly;
use crate::constraint_builder::no_zero_divisors;
use crate::expr::cell_at;
use crate::expr::eval;
use crate::expr::lit;
use crate::expr::minus;
use crate::expr::plus;
use crate::expr::times;
use crate::expr::Expr;
use crate::field::fadd;
use crate::field::fmul;
use crate::field::fred;
use crate::field::modulus;
use crate::field::Fe;
use crate::gadgets::fpow256;
use crate::gadgets::from_bytes_expr;
use crate::gadgets::lt_check;
use crate::gadgets::lt_polys;
use crate::field::fsub;
use crate::gadgets::is_zero_expr;
use crate::gadgets::is_zero_poly;
use crate::plonk::lookup_holds;
use crate::plonk::pairs_match;
use crate::plonk::polys_hold;
use crate::semantics::is_bit;
use crate::semantics::lemma_eval_and;
use crate::semantics::lemma_eval_and_zero;
use crate::semantics::lemma_eval_lit;
use crate::semantics::lemma_eval_minus;
use crate::semantics::lemma_eval_not;
use crate::semantics::lemma_eval_plus;
use crate::semantics::lemma_eval_times;
use crate::table::TxFieldTag;
use crate::tx_circuit::configure::value_is_zero_enable;
use crate::tx_circuit::gates::basic_constraints;
use crate::tx_circuit::gates::calldata_bytes;
use crate::tx_circuit::gates::is_padding_tx;
use crate::tx_circuit::gates::is_tag;
use crate::tx_circuit::gates::is_type;
use crate::tx_circuit::gates::signature_v;
use crate::tx_circuit::gates::tx_id_bound;
use crate::tx_circuit::gates::last_tx_id;
use crate::tx_circuit::gates::tx_id_starts;
use crate::tx_circuit::gates::tx_id_transition;
use crate::tx_circuit::lookups::cum_num_txs_in_block;
use crate::tx_circuit::lookups::enabled_pairs;
use crate::tx_circuit::lookups::l1_msg_type;
use crate::tx_circuit::lookups::rlp_hash;
use crate::tx_circuit::lookups::rlp_sign;
use crate::tx_circuit::lookups::zipped;
use crate::tx_circuit::lookups::num_all_txs_in_block;
use crate::tx_circuit::lookups::num_txs_in_block;
use crate::tx_circuit::TxCircuitConfig;
use crate::util::and_expr;
use crate::util::lemma_eval_range;
use crate::util::not_expr;
use crate::util::select_expr;
use crate::util::sum_expr;
use crate::witness::ChallengeExprs;
use crate::witness::Format;
use crate::witness::RlpTag;
use crate::witness::Tag;
use crate::witness::TxType;
use vstd::prelude::*;

verus! {

/// Where the selector and the condition of a requirement evaluate to one
/// and the requirement holds, what it requires to vanish evaluates to zero.
pub proof fn lemma_enforced(
    selector: Expr,
    condition: Expr,
    body: Expr,
    table: Seq<Seq<int>>,
    challenges: Seq<int>,
    row: int,
)
    requires
        eval(selector, table, challenges, row) == 1,
        eval(condition, table, challenges, row) == 1,
        eval(times(selector, times(times(lit(1), condition), body)), table, challenges, row) == 0,
    ensures
        eval(body, table, challenges, row) == 0,
{
    lemma_eval_lit(1, table, challenges, row);
    lemma_eval_times(lit(1), condition, table, challenges, row);
    lemma_eval_times(times(lit(1), condition), body, table, challenges, row);
    lemma_eval_times(selector, times(times(lit(1), condition), body), table, challenges, row);
}

/// Where the selector of a requirement without a condition evaluates to one
/// and the requirement holds, what it requires to vanish evaluates to zero.
pub proof fn lemma_enforced_always(
    selector: Expr,
    body: Expr,
    table: Seq<Seq<int>>,
    challenges: Seq<int>,
    row: int,
)
    requires
        eval(selector, table, challenges, row) == 1,
        eval(times(selector, times(lit(1), body)), table, challenges, row) == 0,
    ensures
        eval(body, table, challenges, row) == 0,
{
    lemma_eval_lit(1, table, challenges, row);
    lemma_eval_times(lit(1), body, table, challenges, row);
    lemma_eval_times(selector, times(lit(1), body), table, challenges, row);
}

/// On every table that satisfies `tx_id_starts`, the row after a row that
/// is marked as the first carries the sequence number one.
pub proof fn law_start_enforced(
    c: &TxCircuitConfig,
    table: Seq<Seq<int>>,
    challenges: Seq<int>,
    r: int,
)
    requires
        polys_hold(tx_id_starts(c), table, challenges, r),
        eval(cell_at(c.q_first, 0), table, challenges, r) == 1,
    ensures
        eval(cell_at(c.tx_table.tx_id, 1), table, challenges, r) == 1,
{
    let body = minus(cell_at(c.tx_table.tx_id, 1), lit(1));
    assert(tx_id_starts(c)[0].1 == times(cell_at(c.q_first, 0), times(lit(1), body)));
    lemma_enforced_always(cell_at(c.q_first, 0), body, table, challenges, r);
    lemma_eval_minus(cell_at(c.tx_table.tx_id, 1), lit(1), table, challenges, r);
    lemma_eval_lit(1, table, challenges, r);
}

/// On every table that satisfies `tx_id_transition`, from an enabled row of
/// a header to the next row, where that is no row of calldata: if the next
/// row is a `Nonce` row, its sequence number is one more; if it is not, the
/// two rows carry the same sequence number and agree in each of the eight
/// cells that are computed once for each transaction. So changing one of
/// these cells on a row within a header breaks the circuit.
pub proof fn law_transition_enforced(
    c: &TxCircuitConfig,
    table: Seq<Seq<int>>,
    challenges: Seq<int>,
    r: int,
)
    requires
        polys_hold(tx_id_transition(c), table, challenges, r),
        eval(cell_at(c.tx_table.q_enable, 0), table, challenges, r) == 1,
        eval(cell_at(c.is_calldata, 0), table, challenges, r) == 0,
        eval(cell_at(c.is_calldata, 1), table, challenges, r) == 0,
        is_bit(eval(is_tag(c, TxFieldTag::Nonce, 1), table, challenges, r)),
    ensures
        eval(is_tag(c, TxFieldTag::Nonce, 1), table, challenges, r) == 1 ==> eval(
            cell_at(c.tx_table.tx_id, 1),
            table,
            challenges,
            r,
        ) == fadd(eval(cell_at(c.tx_table.tx_id, 0), table, challenges, r), 1),
        eval(is_tag(c, TxFieldTag::Nonce, 1), table, challenges, r) == 0 ==> {
            &&& eval(cell_at(c.tx_table.tx_id, 1), table, challenges, r) == eval(
                cell_at(c.tx_table.tx_id, 0),
                table,
                challenges,
                r,
            )
            &&& eval(cell_at(c.tx_type, 1), table, challenges, r) == eval(
                cell_at(c.tx_type, 0),
                table,
                challenges,
                r,
            )
            &&& eval(cell_at(c.is_padding_tx, 1), table, challenges, r) == eval(
                cell_at(c.is_padding_tx, 0),
                table,
                challenges,
                r,
            )
            &&& eval(cell_at(c.sv_address, 1), table, challenges, r) == eval(
                cell_at(c.sv_address, 0),
                table,
                challenges,
                r,
            )
            &&& eval(cell_at(c.block_num, 1), table, challenges, r) == eval(
                cell_at(c.block_num, 0),
                table,
                challenges,
                r,
            )
            &&& eval(cell_at(c.total_l1_popped_before, 1), table, challenges, r) == eval(
                cell_at(c.total_l1_popped_before, 0),
                table,
                challenges,
                r,
            )
            &&& eval(cell_at(c.num_txs, 1), table, challenges, r) == eval(
                cell_at(c.num_txs, 0),
                table,
                challenges,
                r,
            )
            &&& eval(cell_at(c.cum_num_txs, 1), table, challenges, r) == eval(
                cell_at(c.cum_num_txs, 0),
                table,
                challenges,
                r,
            )
            &&& eval(cell_at(c.num_all_txs_acc, 1), table, challenges, r) == eval(
                cell_at(c.num_all_txs_acc, 0),
                table,
                challenges,
                r,
            )
        },
{
    let t = table;
    let parts = seq![
        cell_at(c.tx_table.q_enable, 0),
        not_expr(cell_at(c.is_calldata, 0)),
        not_expr(cell_at(c.is_calldata, 1)),
    ];
    let selector = and_expr(parts);
    lemma_eval_not(cell_at(c.is_calldata, 0), t, challenges, r);
    lemma_eval_not(cell_at(c.is_calldata, 1), t, challenges, r);
    assert forall|i: int| 0 <= i < parts.len() implies eval(
        #[trigger] parts[i],
        t,
        challenges,
        r,
    ) == 1 by {}
    lemma_eval_and(parts, t, challenges, r);
    let first = is_tag(c, TxFieldTag::Nonce, 1);
    let other = not_expr(first);
    lemma_eval_not(first, t, challenges, r);
    let gate = tx_id_transition(c);
    assert(gate.len() == 10);
    let tx_id = cell_at(c.tx_table.tx_id, 0);
    let tx_id_next = cell_at(c.tx_table.tx_id, 1);
    if eval(first, t, challenges, r) == 1 {
        assert(eval(gate[0].1, t, challenges, r) == 0);
        lemma_enforced(selector, first, minus(tx_id_next, plus(tx_id, lit(1))), t, challenges, r);
        lemma_eval_minus(tx_id_next, plus(tx_id, lit(1)), t, challenges, r);
        lemma_eval_plus(tx_id, lit(1), t, challenges, r);
        lemma_eval_lit(1, t, challenges, r);
    } else {
        assert(eval(gate[1].1, t, challenges, r) == 0);
        lemma_enforced(selector, other, minus(tx_id_next, tx_id), t, challenges, r);
        lemma_eval_minus(tx_id_next, tx_id, t, challenges, r);
        assert(eval(gate[2].1, t, challenges, r) == 0);
        lemma_enforced(selector, other, minus(cell_at(c.tx_type, 1), cell_at(c.tx_type, 0)), t, challenges, r);
        lemma_eval_minus(cell_at(c.tx_type, 1), cell_at(c.tx_type, 0), t, challenges, r);
        assert(eval(gate[3].1, t, challenges, r) == 0);
        lemma_enforced(selector, other, minus(cell_at(c.is_padding_tx, 1), cell_at(c.is_padding_tx, 0)), t, challenges, r);
        lemma_eval_minus(cell_at(c.is_padding_tx, 1), cell_at(c.is_padding_tx, 0), t, challenges, r);
        assert(eval(gate[4].1, t, challenges, r) == 0);
        lemma_enforced(selector, other, minus(cell_at(c.sv_address, 1), cell_at(c.sv_address, 0)), t, challenges, r);
        lemma_eval_minus(cell_at(c.sv_address, 1), cell_at(c.sv_address, 0), t, challenges, r);
        assert(eval(gate[5].1, t, challenges, r) == 0);
        lemma_enforced(selector, other, minus(cell_at(c.block_num, 1), cell_at(c.block_num, 0)), t, challenges, r);
        lemma_eval_minus(cell_at(c.block_num, 1), cell_at(c.block_num, 0), t, challenges, r);
        assert(eval(gate[6].1, t, challenges, r) == 0);
        lemma_enforced(selector, other, minus(cell_at(c.total_l1_popped_before, 1), cell_at(c.total_l1_popped_before, 0)), t, challenges, r);
        lemma_eval_minus(cell_at(c.total_l1_popped_before, 1), cell_at(c.total_l1_popped_before, 0), t, challenges, r);
        assert(eval(gate[7].1, t, challenges, r) == 0);
        lemma_enforced(selector, other, minus(cell_at(c.num_txs, 1), cell_at(c.num_txs, 0)), t, challenges, r);
        lemma_eval_minus(cell_at(c.num_txs, 1), cell_at(c.num_txs, 0), t, challenges, r);
        assert(eval(gate[8].1, t, challenges, r) == 0);
        lemma_enforced(selector, other, minus(cell_at(c.cum_num_txs, 1), cell_at(c.cum_num_txs, 0)), t, challenges, r);
        lemma_eval_minus(cell_at(c.cum_num_txs, 1), cell_at(c.cum_num_txs, 0), t, challenges, r);
        assert(eval(gate[9].1, t, challenges, r) == 0);
        lemma_enforced(selector, other, minus(cell_at(c.num_all_txs_acc, 1), cell_at(c.num_all_txs_acc, 0)), t, challenges, r);
        lemma_eval_minus(cell_at(c.num_all_txs_acc, 1), cell_at(c.num_all_txs_acc, 0), t, challenges, r);
    }
}

/// On every table that satisfies `calldata_bytes`, on an enabled row of
/// calldata that belongs to a transaction the final marker is zero or one.
/// Where it is zero, the next row is at the next position, its sequence
/// number is tested to be the same, and its accumulators go on from this
/// row's by the cost and by the byte of the next row. Where it is one, the
/// sequence number of the next row is tested to be another; and if the next
/// row belongs to a transaction, it is at position zero and its accumulators
/// hold the cost and the byte of the next row alone.
pub proof fn law_calldata_enforced(
    c: &TxCircuitConfig,
    ch: &ChallengeExprs,
    table: Seq<Seq<int>>,
    challenges: Seq<int>,
    r: int,
)
    requires
        no_zero_divisors(),
        polys_hold(calldata_bytes(c, ch), table, challenges, r),
        eval(cell_at(c.tx_table.q_enable, 0), table, challenges, r) == 1,
        eval(cell_at(c.is_calldata, 0), table, challenges, r) == 1,
        eval(
            is_zero_expr(cell_at(c.tx_id_is_zero.value, 0), c.tx_id_is_zero.value_inv, 0),
            table,
            challenges,
            r,
        ) == 0,
    ensures
        ({
            let is_final = eval(cell_at(c.is_final, 0), table, challenges, r);
            let same = eval(c.tx_id_unchanged.is_equal_expression, table, challenges, r);
            let no_next = eval(
                is_zero_expr(cell_at(c.tx_id_is_zero.value, 1), c.tx_id_is_zero.value_inv, 1),
                table,
                challenges,
                r,
            );
            let cost_next = eval(
                select_expr(
                    is_zero_expr(cell_at(c.value_is_zero.value, 1), c.value_is_zero.value_inv, 1),
                    lit(4),
                    lit(16),
                ),
                table,
                challenges,
                r,
            );
            let index = eval(cell_at(c.tx_table.index, 0), table, challenges, r);
            let index_next = eval(cell_at(c.tx_table.index, 1), table, challenges, r);
            let gas = eval(cell_at(c.calldata_gas_cost_acc, 0), table, challenges, r);
            let gas_next = eval(cell_at(c.calldata_gas_cost_acc, 1), table, challenges, r);
            let rlc = eval(cell_at(c.calldata_rlc, 0), table, challenges, r);
            let rlc_next = eval(cell_at(c.calldata_rlc, 1), table, challenges, r);
            let value_next = eval(cell_at(c.tx_table.value, 1), table, challenges, r);
            let base = eval(ch.keccak_input, table, challenges, r);
            &&& is_bit(is_final)
            &&& is_final == 0 ==> {
                &&& index_next == fadd(index, 1)
                &&& same == 1
                &&& gas_next == fadd(gas, cost_next)
                &&& rlc_next == fadd(fmul(rlc, base), value_next)
            }
            &&& is_final == 1 ==> {
                &&& same == 0
                &&& no_next == 0 ==> index_next == 0 && gas_next == cost_next && rlc_next
                    == value_next
            }
        }),
{
    let t = table;
    let no_tx = is_zero_expr(cell_at(c.tx_id_is_zero.value, 0), c.tx_id_is_zero.value_inv, 0);
    let parts = seq![
        cell_at(c.tx_table.q_enable, 0),
        cell_at(c.is_calldata, 0),
        not_expr(no_tx),
    ];
    let selector = and_expr(parts);
    lemma_eval_not(no_tx, t, challenges, r);
    assert forall|i: int| 0 <= i < parts.len() implies eval(
        #[trigger] parts[i],
        t,
        challenges,
        r,
    ) == 1 by {}
    lemma_eval_and(parts, t, challenges, r);
    let gate = calldata_bytes(c, ch);
    assert(gate.len() == 9);
    let is_final = cell_at(c.is_final, 0);
    assert(eval(gate[0].1, t, challenges, r) == 0);
    lemma_enforced_always(selector, boolean_poly(is_final), t, challenges, r);
    crate::constraint_builder::lemma_boolean(is_final, t, challenges, r);
    lemma_eval_range(is_final, t, challenges, r);
    let same = c.tx_id_unchanged.is_equal_expression;
    let no_next = is_zero_expr(cell_at(c.tx_id_is_zero.value, 1), c.tx_id_is_zero.value_inv, 1);
    let cost_next = select_expr(
        is_zero_expr(cell_at(c.value_is_zero.value, 1), c.value_is_zero.value_inv, 1),
        lit(4),
        lit(16),
    );
    let index = cell_at(c.tx_table.index, 0);
    let index_next = cell_at(c.tx_table.index, 1);
    let gas = cell_at(c.calldata_gas_cost_acc, 0);
    let gas_next = cell_at(c.calldata_gas_cost_acc, 1);
    let rlc = cell_at(c.calldata_rlc, 0);
    let rlc_next = cell_at(c.calldata_rlc, 1);
    let value_next = cell_at(c.tx_table.value, 1);
    lemma_eval_lit(0, t, challenges, r);
    lemma_eval_lit(1, t, challenges, r);
    if eval(is_final, t, challenges, r) == 0 {
        let going_on = not_expr(is_final);
        lemma_eval_not(is_final, t, challenges, r);
        assert(eval(gate[1].1, t, challenges, r) == 0);
        lemma_enforced(selector, going_on, minus(index_next, plus(index, lit(1))), t, challenges, r);
        lemma_eval_minus(index_next, plus(index, lit(1)), t, challenges, r);
        lemma_eval_plus(index, lit(1), t, challenges, r);
        assert(eval(gate[2].1, t, challenges, r) == 0);
        lemma_enforced(selector, going_on, minus(same, lit(1)), t, challenges, r);
        lemma_eval_minus(same, lit(1), t, challenges, r);
        assert(eval(gate[3].1, t, challenges, r) == 0);
        lemma_enforced(selector, going_on, minus(gas_next, plus(gas, cost_next)), t, challenges, r);
        lemma_eval_minus(gas_next, plus(gas, cost_next), t, challenges, r);
        lemma_eval_plus(gas, cost_next, t, challenges, r);
        assert(eval(gate[4].1, t, challenges, r) == 0);
        let folded = plus(times(rlc, ch.keccak_input), value_next);
        lemma_enforced(selector, going_on, minus(rlc_next, folded), t, challenges, r);
        lemma_eval_minus(rlc_next, folded, t, challenges, r);
        lemma_eval_plus(times(rlc, ch.keccak_input), value_next, t, challenges, r);
        lemma_eval_times(rlc, ch.keccak_input, t, challenges, r);
    } else {
        assert(eval(gate[5].1, t, challenges, r) == 0);
        lemma_enforced(selector, is_final, same, t, challenges, r);
        if eval(no_next, t, challenges, r) == 0 {
            let restart_parts = seq![is_final, not_expr(no_next)];
            let restart = and_expr(restart_parts);
            lemma_eval_not(no_next, t, challenges, r);
            assert forall|i: int| 0 <= i < restart_parts.len() implies eval(
                #[trigger] restart_parts[i],
                t,
                challenges,
                r,
            ) == 1 by {}
            lemma_eval_and(restart_parts, t, challenges, r);
            assert(eval(gate[6].1, t, challenges, r) == 0);
            lemma_enforced(selector, restart, minus(index_next, lit(0)), t, challenges, r);
            lemma_eval_minus(index_next, lit(0), t, challenges, r);
            assert(eval(gate[7].1, t, challenges, r) == 0);
            lemma_enforced(selector, restart, minus(gas_next, cost_next), t, challenges, r);
            lemma_eval_minus(gas_next, cost_next, t, challenges, r);
            assert(eval(gate[8].1, t, challenges, r) == 0);
            lemma_enforced(selector, restart, minus(rlc_next, value_next), t, challenges, r);
            lemma_eval_minus(rlc_next, value_next, t, challenges, r);
        }
    }
}

/// A test for zero that evaluates to zero comes of a value other than zero.
pub proof fn lemma_not_zero(
    value: Expr,
    value_inv: crate::expr::Column,
    rotation: int,
    table: Seq<Seq<int>>,
    challenges: Seq<int>,
    row: int,
)
    requires
        eval(is_zero_expr(value, value_inv, rotation), table, challenges, row) == 0,
    ensures
        eval(value, table, challenges, row) != 0,
{
    let product = times(value, cell_at(value_inv, rotation));
    lemma_eval_lit(1, table, challenges, row);
    lemma_eval_minus(lit(1), product, table, challenges, row);
    lemma_eval_times(value, cell_at(value_inv, rotation), table, challenges, row);
}

/// On every table that satisfies `basic_constraints`, on an enabled
/// `CallDataRLC` row the flag of an empty value is zero or one. Where it is
/// one, the value of the row and the values of the two rows after it, the
/// length and the gas cost of the calldata, are zero. Where it is zero, the
/// value of the next row, the length, is not zero.
pub proof fn law_empty_calldata_enforced(
    c: &TxCircuitConfig,
    table: Seq<Seq<int>>,
    challenges: Seq<int>,
    r: int,
)
    requires
        no_zero_divisors(),
        polys_hold(basic_constraints(c), table, challenges, r),
        c.value_is_zero.value == c.tx_table.value,
        eval(cell_at(c.tx_table.q_enable, 0), table, challenges, r) == 1,
        eval(is_tag(c, TxFieldTag::CallDataRLC, 0), table, challenges, r) == 1,
    ensures
        is_bit(eval(cell_at(c.is_none, 0), table, challenges, r)),
        eval(cell_at(c.is_none, 0), table, challenges, r) == 1 ==> {
            &&& eval(cell_at(c.tx_table.value, 0), table, challenges, r) == 0
            &&& eval(cell_at(c.tx_table.value, 1), table, challenges, r) == 0
            &&& eval(cell_at(c.tx_table.value, 2), table, challenges, r) == 0
        },
        eval(cell_at(c.is_none, 0), table, challenges, r) == 0 ==> eval(
            cell_at(c.tx_table.value, 1),
            table,
            challenges,
            r,
        ) != 0,
{
    let t = table;
    let selector = cell_at(c.tx_table.q_enable, 0);
    let is_none = cell_at(c.is_none, 0);
    let kind = is_tag(c, TxFieldTag::CallDataRLC, 0);
    let gate = basic_constraints(c);
    assert(gate.len() == 9);
    assert(eval(gate[0].1, t, challenges, r) == 0);
    lemma_enforced_always(selector, boolean_poly(is_none), t, challenges, r);
    crate::constraint_builder::lemma_boolean(is_none, t, challenges, r);
    lemma_eval_lit(0, t, challenges, r);
    let value = cell_at(c.tx_table.value, 0);
    let value_1 = cell_at(c.tx_table.value, 1);
    let value_2 = cell_at(c.tx_table.value, 2);
    if eval(is_none, t, challenges, r) == 1 {
        let empty_parts = seq![kind, is_none];
        let empty = and_expr(empty_parts);
        assert forall|i: int| 0 <= i < empty_parts.len() implies eval(
            #[trigger] empty_parts[i],
            t,
            challenges,
            r,
        ) == 1 by {}
        lemma_eval_and(empty_parts, t, challenges, r);
        assert(eval(gate[5].1, t, challenges, r) == 0);
        lemma_enforced(selector, is_none, minus(value, lit(0)), t, challenges, r);
        lemma_eval_minus(value, lit(0), t, challenges, r);
        assert(eval(gate[6].1, t, challenges, r) == 0);
        lemma_enforced(selector, empty, minus(value_1, lit(0)), t, challenges, r);
        lemma_eval_minus(value_1, lit(0), t, challenges, r);
        assert(eval(gate[7].1, t, challenges, r) == 0);
        lemma_enforced(selector, empty, minus(value_2, lit(0)), t, challenges, r);
        lemma_eval_minus(value_2, lit(0), t, challenges, r);
    } else {
        let full_parts = seq![kind, not_expr(is_none)];
        let full = and_expr(full_parts);
        lemma_eval_not(is_none, t, challenges, r);
        assert forall|i: int| 0 <= i < full_parts.len() implies eval(
            #[trigger] full_parts[i],
            t,
            challenges,
            r,
        ) == 1 by {}
        lemma_eval_and(full_parts, t, challenges, r);
        let length_is_zero = is_zero_expr(
            cell_at(c.value_is_zero.value, 1),
            c.value_is_zero.value_inv,
            1,
        );
        assert(eval(gate[8].1, t, challenges, r) == 0);
        lemma_enforced(selector, full, length_is_zero, t, challenges, r);
        lemma_not_zero(
            cell_at(c.value_is_zero.value, 1),
            c.value_is_zero.value_inv,
            1,
            t,
            challenges,
            r,
        );
    }
}

/// On every table that satisfies `is_padding_tx` and on which the test of
/// the value for zero is tied to the value, on an enabled `CallerAddress`
/// row the padding flag is set exactly if the sender is zero.
pub proof fn law_padding_enforced(
    c: &TxCircuitConfig,
    table: Seq<Seq<int>>,
    challenges: Seq<int>,
    r: int,
)
    requires
        polys_hold(is_padding_tx(c), table, challenges, r),
        eval(
            is_zero_poly(
                value_is_zero_enable(c),
                cell_at(c.tx_table.value, 0),
                c.value_is_zero.value_inv,
            ),
            table,
            challenges,
            r,
        ) == 0,
        c.value_is_zero.value == c.tx_table.value,
        eval(cell_at(c.tx_table.q_enable, 0), table, challenges, r) == 1,
        eval(is_tag(c, TxFieldTag::CallerAddress, 0), table, challenges, r) == 1,
        eval(value_is_zero_enable(c), table, challenges, r) == 1,
        is_bit(eval(cell_at(c.is_padding_tx, 0), table, challenges, r)),
    ensures
        eval(cell_at(c.is_padding_tx, 0), table, challenges, r) == 1 <==> eval(
            cell_at(c.tx_table.value, 0),
            table,
            challenges,
            r,
        ) == 0,
{
    let t = table;
    let selector = cell_at(c.tx_table.q_enable, 0);
    let kind = is_tag(c, TxFieldTag::CallerAddress, 0);
    let flag = cell_at(c.is_padding_tx, 0);
    let value = cell_at(c.tx_table.value, 0);
    let none = is_zero_expr(value, c.value_is_zero.value_inv, 0);
    assert(is_padding_tx(c)[0].1 == times(selector, times(times(lit(1), kind), minus(flag, none))));
    lemma_enforced(selector, kind, minus(flag, none), t, challenges, r);
    lemma_eval_minus(flag, none, t, challenges, r);
    // The flag is the test for zero.
    let enable = value_is_zero_enable(c);
    lemma_eval_times(enable, value, t, challenges, r);
    lemma_eval_times(times(enable, value), none, t, challenges, r);
    lemma_eval_range(value, t, challenges, r);
    lemma_eval_lit(1, t, challenges, r);
    lemma_eval_minus(lit(1), times(value, cell_at(c.value_is_zero.value_inv, 0)), t, challenges, r);
    lemma_eval_times(value, cell_at(c.value_is_zero.value_inv, 0), t, challenges, r);
    if eval(flag, t, challenges, r) == 0 {
        lemma_not_zero(value, c.value_is_zero.value_inv, 0, t, challenges, r);
    }
}

/// On every table, a row that carries the padding flag looks nothing up in
/// the table of block aggregates: the inputs of the three lookups evaluate
/// to zero, so that a padding adds nothing to a count of a block.
pub proof fn law_padding_counts_nothing(
    c: &TxCircuitConfig,
    table: Seq<Seq<int>>,
    challenges: Seq<int>,
    r: int,
)
    requires
        eval(cell_at(c.is_padding_tx, 0), table, challenges, r) == 1,
    ensures
        forall|k: int|
            0 <= k < 3 ==> eval(#[trigger] num_txs_in_block(c)[k].0, table, challenges, r) == 0,
        forall|k: int|
            0 <= k < 3 ==> eval(#[trigger] cum_num_txs_in_block(c)[k].0, table, challenges, r)
                == 0,
        forall|k: int|
            0 <= k < 3 ==> eval(#[trigger] num_all_txs_in_block(c)[k].0, table, challenges, r)
                == 0,
{
    let t = table;
    let genuine = not_expr(cell_at(c.is_padding_tx, 0));
    lemma_eval_not(cell_at(c.is_padding_tx, 0), t, challenges, r);
    let counted = seq![cell_at(c.is_tag_block_num, 0), genuine, cell_at(c.tx_table.q_enable, 0)];
    lemma_eval_and_zero(counted, 1, t, challenges, r);
    let ends = seq![
        cell_at(c.is_tag_block_num, 0),
        not_expr(c.block_num_unchanged.is_equal_expression),
        genuine,
    ];
    lemma_eval_and_zero(ends, 2, t, challenges, r);
    assert forall|k: int| 0 <= k < 3 implies eval(
        #[trigger] num_txs_in_block(c)[k].0,
        t,
        challenges,
        r,
    ) == 0 by {
        let pair = num_txs_in_block(c)[k];
        if k == 0 {
            lemma_eval_times(lit(crate::table::BlockContextFieldTag::NumTxs.spec_index() as int), and_expr(counted), t, challenges, r);
        } else if k == 1 {
            lemma_eval_times(cell_at(c.tx_table.value, 0), and_expr(counted), t, challenges, r);
        } else {
            lemma_eval_times(cell_at(c.num_txs, 0), and_expr(counted), t, challenges, r);
        }
    }
    assert forall|k: int| 0 <= k < 3 implies eval(
        #[trigger] cum_num_txs_in_block(c)[k].0,
        t,
        challenges,
        r,
    ) == 0 by {
        if k == 0 {
            lemma_eval_times(lit(crate::table::BlockContextFieldTag::CumNumTxs.spec_index() as int), and_expr(counted), t, challenges, r);
        } else if k == 1 {
            lemma_eval_times(cell_at(c.tx_table.value, 0), and_expr(counted), t, challenges, r);
        } else {
            lemma_eval_times(cell_at(c.cum_num_txs, 0), and_expr(counted), t, challenges, r);
        }
    }
    assert forall|k: int| 0 <= k < 3 implies eval(
        #[trigger] num_all_txs_in_block(c)[k].0,
        t,
        challenges,
        r,
    ) == 0 by {
        if k == 0 {
            lemma_eval_times(lit(crate::table::BlockContextFieldTag::NumAllTxs.spec_index() as int), and_expr(ends), t, challenges, r);
        } else if k == 1 {
            lemma_eval_times(cell_at(c.tx_table.value, 0), and_expr(ends), t, challenges, r);
        } else {
            lemma_eval_times(cell_at(c.num_all_txs_acc, 0), and_expr(ends), t, challenges, r);
        }
    }
}

/// On every table that satisfies `last_tx_id`, on an enabled `BlockNumber`
/// row of a transaction that is the last of its block, the padding or a
/// header of another block coming next, the sequence number is the number
/// of the transactions up to and including the block.
pub proof fn law_block_end_enforced(
    c: &TxCircuitConfig,
    table: Seq<Seq<int>>,
    challenges: Seq<int>,
    r: int,
)
    requires
        polys_hold(last_tx_id(c), table, challenges, r),
        eval(cell_at(c.tx_table.q_enable, 0), table, challenges, r) == 1,
        eval(cell_at(c.is_tag_block_num, 0), table, challenges, r) == 1,
        eval(cell_at(c.is_padding_tx, 0), table, challenges, r) == 0,
        eval(cell_at(c.is_padding_tx, 1), table, challenges, r) == 1 || eval(
            c.block_num_unchanged.is_equal_expression,
            table,
            challenges,
            r,
        ) == 0,
    ensures
        eval(cell_at(c.tx_table.tx_id, 0), table, challenges, r) == eval(
            cell_at(c.cum_num_txs, 0),
            table,
            challenges,
            r,
        ),
{
    let t = table;
    let selector = cell_at(c.tx_table.q_enable, 0);
    let genuine = not_expr(cell_at(c.is_padding_tx, 0));
    lemma_eval_not(cell_at(c.is_padding_tx, 0), t, challenges, r);
    let same = c.block_num_unchanged.is_equal_expression;
    let tx_id = cell_at(c.tx_table.tx_id, 0);
    let cum = cell_at(c.cum_num_txs, 0);
    let gate = last_tx_id(c);
    assert(gate.len() == 2);
    lemma_eval_minus(tx_id, cum, t, challenges, r);
    if eval(cell_at(c.is_padding_tx, 1), t, challenges, r) == 1 {
        let parts = seq![cell_at(c.is_tag_block_num, 0), genuine, cell_at(c.is_padding_tx, 1)];
        assert forall|i: int| 0 <= i < parts.len() implies eval(
            #[trigger] parts[i],
            t,
            challenges,
            r,
        ) == 1 by {}
        lemma_eval_and(parts, t, challenges, r);
        assert(eval(gate[0].1, t, challenges, r) == 0);
        lemma_enforced(selector, and_expr(parts), minus(tx_id, cum), t, challenges, r);
    } else {
        let parts = seq![cell_at(c.is_tag_block_num, 0), genuine, not_expr(same)];
        lemma_eval_not(same, t, challenges, r);
        assert forall|i: int| 0 <= i < parts.len() implies eval(
            #[trigger] parts[i],
            t,
            challenges,
            r,
        ) == 1 by {}
        lemma_eval_and(parts, t, challenges, r);
        assert(eval(gate[1].1, t, challenges, r) == 0);
        lemma_enforced(selector, and_expr(parts), minus(tx_id, cum), t, challenges, r);
    }
}

/// On every table that satisfies `signature_v`, on an enabled `ChainID` row
/// the recovery value on the next row is the one that the type of the
/// transaction asks for: twice the chain id and 35 or 36 where the chain id
/// is bound in, 27 or 28 where it is not, and zero for a message from the
/// queue.
pub proof fn law_signature_enforced(
    c: &TxCircuitConfig,
    table: Seq<Seq<int>>,
    challenges: Seq<int>,
    r: int,
)
    requires
        no_zero_divisors(),
        polys_hold(signature_v(c), table, challenges, r),
        eval(cell_at(c.tx_table.q_enable, 0), table, challenges, r) == 1,
        eval(cell_at(c.is_chain_id, 0), table, challenges, r) == 1,
    ensures
        ({
            let chain_id = eval(cell_at(c.tx_table.value, 0), table, challenges, r);
            let v = eval(cell_at(c.tx_table.value, 1), table, challenges, r);
            &&& eval(is_type(c, TxType::Eip155), table, challenges, r) == 1 ==> is_bit(
                fsub(fsub(v, fmul(chain_id, 2)), 35),
            )
            &&& eval(is_type(c, TxType::PreEip155), table, challenges, r) == 1 ==> is_bit(
                fsub(v, 27),
            )
            &&& eval(is_type(c, TxType::L1Msg), table, challenges, r) == 1 ==> v == 0
        }),
{
    let t = table;
    let selector = cell_at(c.tx_table.q_enable, 0);
    let chain_id = cell_at(c.tx_table.value, 0);
    let recovery = cell_at(c.tx_table.value, 1);
    let gate = signature_v(c);
    assert(gate.len() == 3);
    lemma_eval_lit(2, t, challenges, r);
    lemma_eval_lit(35, t, challenges, r);
    lemma_eval_lit(27, t, challenges, r);
    if eval(is_type(c, TxType::Eip155), t, challenges, r) == 1 {
        let parts = seq![cell_at(c.is_chain_id, 0), is_type(c, TxType::Eip155)];
        assert forall|i: int| 0 <= i < parts.len() implies eval(
            #[trigger] parts[i],
            t,
            challenges,
            r,
        ) == 1 by {}
        lemma_eval_and(parts, t, challenges, r);
        let over = minus(minus(recovery, times(chain_id, lit(2))), lit(35));
        assert(eval(gate[0].1, t, challenges, r) == 0);
        lemma_enforced(selector, and_expr(parts), boolean_poly(over), t, challenges, r);
        crate::constraint_builder::lemma_boolean(over, t, challenges, r);
        lemma_eval_minus(minus(recovery, times(chain_id, lit(2))), lit(35), t, challenges, r);
        lemma_eval_minus(recovery, times(chain_id, lit(2)), t, challenges, r);
        lemma_eval_times(chain_id, lit(2), t, challenges, r);
    }
    if eval(is_type(c, TxType::PreEip155), t, challenges, r) == 1 {
        let parts = seq![cell_at(c.is_chain_id, 0), is_type(c, TxType::PreEip155)];
        assert forall|i: int| 0 <= i < parts.len() implies eval(
            #[trigger] parts[i],
            t,
            challenges,
            r,
        ) == 1 by {}
        lemma_eval_and(parts, t, challenges, r);
        let over = minus(recovery, lit(27));
        assert(eval(gate[1].1, t, challenges, r) == 0);
        lemma_enforced(selector, and_expr(parts), boolean_poly(over), t, challenges, r);
        crate::constraint_builder::lemma_boolean(over, t, challenges, r);
        lemma_eval_minus(recovery, lit(27), t, challenges, r);
    }
    if eval(is_type(c, TxType::L1Msg), t, challenges, r) == 1 {
        let parts = seq![cell_at(c.is_chain_id, 0), is_type(c, TxType::L1Msg)];
        assert forall|i: int| 0 <= i < parts.len() implies eval(
            #[trigger] parts[i],
            t,
            challenges,
            r,
        ) == 1 by {}
        lemma_eval_and(parts, t, challenges, r);
        assert(eval(gate[2].1, t, challenges, r) == 0);
        lemma_enforced(selector, and_expr(parts), recovery, t, challenges, r);
    }
}

/// On every table, a row on which a lookup is enabled and holds finds a row
/// of the table on which each table expression evaluates to what the input
/// beside it evaluates to.
pub proof fn law_lookup_enforced(
    enable: Expr,
    inputs: Seq<Expr>,
    table_exprs: Seq<Expr>,
    table: Seq<Seq<int>>,
    challenges: Seq<int>,
    r: int,
)
    requires
        inputs.len() == table_exprs.len(),
        eval(enable, table, challenges, r) == 1,
        lookup_holds(enabled_pairs(enable, inputs, table_exprs), table, challenges, r),
    ensures
        lookup_holds(zipped(inputs, table_exprs), table, challenges, r),
{
    let pairs = enabled_pairs(enable, inputs, table_exprs);
    let plain = zipped(inputs, table_exprs);
    let at = choose|at: int|
        0 <= at < table.len() && #[trigger] pairs_match(
            pairs,
            pairs.len() as int,
            table,
            challenges,
            r,
            at,
        );
    assert forall|k: int| 0 <= k < plain.len() implies eval(
        #[trigger] plain[k].0,
        table,
        challenges,
        r,
    ) == eval(plain[k].1, table, challenges, at) by {
        assert(eval(pairs[k].0, table, challenges, r) == eval(pairs[k].1, table, challenges, at));
        lemma_eval_times(enable, inputs[k], table, challenges, r);
    }
    assert(pairs_match(plain, plain.len() as int, table, challenges, r, at));
}

/// The row `at` of the table of decoded fields is an enabled row that holds
/// the field of a transaction in an encoding: its lookup tag, its value,
/// the fingerprint and the length of its bytes, and whether it is empty.
pub open spec fn decoded(
    c: &TxCircuitConfig,
    table: Seq<Seq<int>>,
    challenges: Seq<int>,
    at: int,
    field: Seq<int>,
) -> bool {
    &&& field.len() == 7
    &&& eval(cell_at(c.rlp_table.q_enable, 0), table, challenges, at) == 1
    &&& eval(cell_at(c.rlp_table.tx_id, 0), table, challenges, at) == field[0]
    &&& eval(cell_at(c.rlp_table.format, 0), table, challenges, at) == field[1]
    &&& eval(cell_at(c.rlp_table.rlp_tag, 0), table, challenges, at) == field[2]
    &&& eval(cell_at(c.rlp_table.tag_value, 0), table, challenges, at) == field[3]
    &&& eval(cell_at(c.rlp_table.tag_bytes_rlc, 0), table, challenges, at) == field[4]
    &&& eval(cell_at(c.rlp_table.tag_length, 0), table, challenges, at) == field[5]
    &&& eval(cell_at(c.rlp_table.is_output, 0), table, challenges, at) == 1
    &&& eval(cell_at(c.rlp_table.is_none, 0), table, challenges, at) == field[6]
}

/// What a row of the transaction table hands to the table of decoded
/// fields in an encoding of the number `format`.
pub open spec fn field_of_row(
    c: &TxCircuitConfig,
    table: Seq<Seq<int>>,
    challenges: Seq<int>,
    r: int,
    format: int,
) -> Seq<int> {
    seq![
        eval(cell_at(c.tx_table.tx_id, 0), table, challenges, r),
        format,
        eval(cell_at(c.rlp_tag, 0), table, challenges, r),
        eval(cell_at(c.tx_table.value, 0), table, challenges, r),
        eval(cell_at(c.tx_value_rlc, 0), table, challenges, r),
        eval(cell_at(c.tx_value_length, 0), table, challenges, r),
        eval(cell_at(c.is_none, 0), table, challenges, r),
    ]
}

/// A row of the table on which the nine table expressions of the table of
/// decoded fields evaluate to what nine inputs evaluate to holds the field
/// that the inputs spell, where the first input and the eighth evaluate to
/// one.
pub proof fn lemma_decoded(
    c: &TxCircuitConfig,
    inputs: Seq<Expr>,
    table: Seq<Seq<int>>,
    challenges: Seq<int>,
    r: int,
) -> (at: int)
    requires
        inputs.len() == 9,
        eval(inputs[0], table, challenges, r) == 1,
        eval(inputs[7], table, challenges, r) == 1,
        lookup_holds(zipped(inputs, c.rlp_table.spec_table_exprs()), table, challenges, r),
    ensures
        0 <= at < table.len(),
        decoded(
            c,
            table,
            challenges,
            at,
            seq![
                eval(inputs[1], table, challenges, r),
                eval(inputs[2], table, challenges, r),
                eval(inputs[3], table, challenges, r),
                eval(inputs[4], table, challenges, r),
                eval(inputs[5], table, challenges, r),
                eval(inputs[6], table, challenges, r),
                eval(inputs[8], table, challenges, r),
            ],
        ),
{
    let pairs = zipped(inputs, c.rlp_table.spec_table_exprs());
    let at = choose|at: int|
        0 <= at < table.len() && #[trigger] pairs_match(
            pairs,
            pairs.len() as int,
            table,
            challenges,
            r,
            at,
        );
    assert(pairs.len() == 9);
    assert(eval(pairs[0].0, table, challenges, r) == eval(pairs[0].1, table, challenges, at));
    assert(eval(pairs[1].0, table, challenges, r) == eval(pairs[1].1, table, challenges, at));
    assert(eval(pairs[2].0, table, challenges, r) == eval(pairs[2].1, table, challenges, at));
    assert(eval(pairs[3].0, table, challenges, r) == eval(pairs[3].1, table, challenges, at));
    assert(eval(pairs[4].0, table, challenges, r) == eval(pairs[4].1, table, challenges, at));
    assert(eval(pairs[5].0, table, challenges, r) == eval(pairs[5].1, table, challenges, at));
    assert(eval(pairs[6].0, table, challenges, r) == eval(pairs[6].1, table, challenges, at));
    assert(eval(pairs[7].0, table, challenges, r) == eval(pairs[7].1, table, challenges, at));
    assert(eval(pairs[8].0, table, challenges, r) == eval(pairs[8].1, table, challenges, at));
    at
}

/// The number of the signed encoding that a row looks its field up in, by
/// the type of its transaction.
pub open spec fn sign_format(c: &TxCircuitConfig) -> Expr {
    plus(
        times(is_type(c, TxType::PreEip155), lit(Format::TxSignPreEip155.spec_index() as int)),
        times(is_type(c, TxType::Eip155), lit(Format::TxSignEip155.spec_index() as int)),
    )
}

/// The number of the hashed encoding that a row looks its field up in, by
/// the type of its transaction.
pub open spec fn hash_format(c: &TxCircuitConfig) -> Expr {
    plus(
        plus(
            times(is_type(c, TxType::PreEip155), lit(Format::TxHashPreEip155.spec_index() as int)),
            times(is_type(c, TxType::Eip155), lit(Format::TxHashEip155.spec_index() as int)),
        ),
        times(is_type(c, TxType::L1Msg), lit(Format::L1MsgHash.spec_index() as int)),
    )
}

/// On every table on which the lookup `rlp_sign` holds, an enabled row that
/// is flagged to look a field of the signed encoding up finds a row of the
/// table of decoded fields that holds its field in the signed encoding of
/// its type.
pub proof fn law_rlp_sign_enforced(
    c: &TxCircuitConfig,
    table: Seq<Seq<int>>,
    challenges: Seq<int>,
    r: int,
)
    requires
        lookup_holds(rlp_sign(c), table, challenges, r),
        eval(cell_at(c.tx_table.q_enable, 0), table, challenges, r) == 1,
        eval(cell_at(c.lookup_conditions.rlp_sign_tag, 0), table, challenges, r) == 1,
    ensures
        exists|at: int|
            0 <= at < table.len() && #[trigger] decoded(
                c,
                table,
                challenges,
                at,
                field_of_row(c, table, challenges, r, eval(sign_format(c), table, challenges, r)),
            ),
{
    let parts = seq![cell_at(c.tx_table.q_enable, 0), cell_at(c.lookup_conditions.rlp_sign_tag, 0)];
    assert forall|i: int| 0 <= i < parts.len() implies eval(
        #[trigger] parts[i],
        table,
        challenges,
        r,
    ) == 1 by {}
    lemma_eval_and(parts, table, challenges, r);
    let inputs = seq![
        lit(1),
        cell_at(c.tx_table.tx_id, 0),
        sign_format(c),
        cell_at(c.rlp_tag, 0),
        cell_at(c.tx_table.value, 0),
        cell_at(c.tx_value_rlc, 0),
        cell_at(c.tx_value_length, 0),
        lit(1),
        cell_at(c.is_none, 0),
    ];
    lemma_eval_lit(1, table, challenges, r);
    law_lookup_enforced(
        and_expr(parts),
        inputs,
        c.rlp_table.spec_table_exprs(),
        table,
        challenges,
        r,
    );
    let at = lemma_decoded(c, inputs, table, challenges, r);
    let field = field_of_row(c, table, challenges, r, eval(sign_format(c), table, challenges, r));
    assert(field =~= seq![
        eval(inputs[1], table, challenges, r),
        eval(inputs[2], table, challenges, r),
        eval(inputs[3], table, challenges, r),
        eval(inputs[4], table, challenges, r),
        eval(inputs[5], table, challenges, r),
        eval(inputs[6], table, challenges, r),
        eval(inputs[8], table, challenges, r),
    ]);
    assert(decoded(c, table, challenges, at, field));
}

/// On every table on which the lookup `rlp_hash` holds, an enabled row that
/// is flagged to look a field of the hashed encoding up, or of the encoding
/// of a message from the queue, finds a row of the table of decoded fields
/// that holds its field in the hashed encoding of its type.
pub proof fn law_rlp_hash_enforced(
    c: &TxCircuitConfig,
    table: Seq<Seq<int>>,
    challenges: Seq<int>,
    r: int,
)
    requires
        lookup_holds(rlp_hash(c), table, challenges, r),
        eval(cell_at(c.tx_table.q_enable, 0), table, challenges, r) == 1,
        (eval(cell_at(c.lookup_conditions.rlp_hash_tag, 0), table, challenges, r) == 1 && eval(
            cell_at(c.lookup_conditions.l1_msg_hash, 0),
            table,
            challenges,
            r,
        ) == 0) || (eval(cell_at(c.lookup_conditions.rlp_hash_tag, 0), table, challenges, r) == 0
            && eval(cell_at(c.lookup_conditions.l1_msg_hash, 0), table, challenges, r) == 1),
    ensures
        exists|at: int|
            0 <= at < table.len() && #[trigger] decoded(
                c,
                table,
                challenges,
                at,
                field_of_row(c, table, challenges, r, eval(hash_format(c), table, challenges, r)),
            ),
{
    let flags = seq![
        cell_at(c.lookup_conditions.rlp_hash_tag, 0),
        cell_at(c.lookup_conditions.l1_msg_hash, 0),
    ];
    let k: int = if eval(flags[0], table, challenges, r) == 1 {
        0
    } else {
        1
    };
    assert forall|i: int| 0 <= i < flags.len() && i != k implies eval(
        #[trigger] flags[i],
        table,
        challenges,
        r,
    ) == 0 by {}
    crate::semantics::lemma_eval_sum(flags, k, table, challenges, r);
    let parts = seq![cell_at(c.tx_table.q_enable, 0), sum_expr(flags)];
    assert forall|i: int| 0 <= i < parts.len() implies eval(
        #[trigger] parts[i],
        table,
        challenges,
        r,
    ) == 1 by {}
    lemma_eval_and(parts, table, challenges, r);
    let inputs = seq![
        lit(1),
        cell_at(c.tx_table.tx_id, 0),
        hash_format(c),
        cell_at(c.rlp_tag, 0),
        cell_at(c.tx_table.value, 0),
        cell_at(c.tx_value_rlc, 0),
        cell_at(c.tx_value_length, 0),
        lit(1),
        cell_at(c.is_none, 0),
    ];
    lemma_eval_lit(1, table, challenges, r);
    law_lookup_enforced(
        and_expr(parts),
        inputs,
        c.rlp_table.spec_table_exprs(),
        table,
        challenges,
        r,
    );
    let at = lemma_decoded(c, inputs, table, challenges, r);
    let field = field_of_row(c, table, challenges, r, eval(hash_format(c), table, challenges, r));
    assert(field =~= seq![
        eval(inputs[1], table, challenges, r),
        eval(inputs[2], table, challenges, r),
        eval(inputs[3], table, challenges, r),
        eval(inputs[4], table, challenges, r),
        eval(inputs[5], table, challenges, r),
        eval(inputs[6], table, challenges, r),
        eval(inputs[8], table, challenges, r),
    ]);
    assert(decoded(c, table, challenges, at, field));
}

/// The byte that marks the type of a message from the queue, 126, as the
/// field `TxType` of the encoding of the message of a row: one byte that is
/// not empty.
pub open spec fn type_byte_of_row(
    c: &TxCircuitConfig,
    table: Seq<Seq<int>>,
    challenges: Seq<int>,
    r: int,
) -> Seq<int> {
    seq![
        eval(cell_at(c.tx_table.tx_id, 0), table, challenges, r),
        Format::L1MsgHash.spec_index() as int,
        RlpTag::Tag(Tag::TxType).spec_index() as int,
        126,
        126,
        1,
        0,
    ]
}

/// On every table on which the lookup `l1_msg_type` holds, an enabled row of
/// a message from the queue finds a row of the table of decoded fields that
/// holds the byte that marks the type of the message, 126, as the field
/// `TxType` of the encoding of the message.
pub proof fn law_l1_msg_type_enforced(
    c: &TxCircuitConfig,
    table: Seq<Seq<int>>,
    challenges: Seq<int>,
    r: int,
)
    requires
        lookup_holds(l1_msg_type(c), table, challenges, r),
        eval(cell_at(c.tx_table.q_enable, 0), table, challenges, r) == 1,
        eval(is_type(c, TxType::L1Msg), table, challenges, r) == 1,
    ensures
        exists|at: int|
            0 <= at < table.len() && #[trigger] decoded(
                c,
                table,
                challenges,
                at,
                type_byte_of_row(c, table, challenges, r),
            ),
{
    let parts = seq![cell_at(c.tx_table.q_enable, 0), is_type(c, TxType::L1Msg)];
    assert forall|i: int| 0 <= i < parts.len() implies eval(
        #[trigger] parts[i],
        table,
        challenges,
        r,
    ) == 1 by {}
    lemma_eval_and(parts, table, challenges, r);
    let inputs = seq![
        lit(1),
        cell_at(c.tx_table.tx_id, 0),
        lit(Format::L1MsgHash.spec_index() as int),
        lit(RlpTag::Tag(Tag::TxType).spec_index() as int),
        lit(126),
        lit(126),
        lit(1),
        lit(1),
        lit(0),
    ];
    lemma_eval_lit(0, table, challenges, r);
    lemma_eval_lit(1, table, challenges, r);
    lemma_eval_lit(126, table, challenges, r);
    lemma_eval_lit(Format::L1MsgHash.spec_index() as int, table, challenges, r);
    lemma_eval_lit(RlpTag::Tag(Tag::TxType).spec_index() as int, table, challenges, r);
    law_lookup_enforced(
        and_expr(parts),
        inputs,
        c.rlp_table.spec_table_exprs(),
        table,
        challenges,
        r,
    );
    let at = lemma_decoded(c, inputs, table, challenges, r);
    let field = type_byte_of_row(c, table, challenges, r);
    assert(field =~= seq![
        eval(inputs[1], table, challenges, r),
        eval(inputs[2], table, challenges, r),
        eval(inputs[3], table, challenges, r),
        eval(inputs[4], table, challenges, r),
        eval(inputs[5], table, challenges, r),
        eval(inputs[6], table, challenges, r),
        eval(inputs[8], table, challenges, r),
    ]);
    assert(decoded(c, table, challenges, at, field));
}

/// An integer between the modulus and its negative that stands for zero in
/// the field is zero.
pub proof fn lemma_small_zero(x: int)
    requires
        -modulus() < x < modulus(),
        fred(x) == 0,
    ensures
        x == 0,
{
    let p = modulus() as int;
    if x >= 0 {
        vstd::arithmetic::div_mod::lemma_small_mod(x as nat, modulus());
    } else {
        vstd::arithmetic::div_mod::lemma_mod_add_multiples_vanish(x, p);
        vstd::arithmetic::div_mod::lemma_small_mod((x + p) as nat, modulus());
    }
}

/// On every table that satisfies `tx_id_bound`, the comparison of the
/// sequence number with the cumulative count, the test whether the two are
/// the same, and the range checks of the two bytes of the comparison: on an
/// enabled `BlockNumber` row of a transaction whose sequence number and
/// cumulative count are below 65536, the sequence number is at most the
/// cumulative count.
pub proof fn law_bound_enforced(
    c: &TxCircuitConfig,
    table: Seq<Seq<int>>,
    challenges: Seq<int>,
    r: int,
)
    requires
        no_zero_divisors(),
        c.expressions_ok(),
        c.tx_id_vs_cum_num_txs.lt_chip.diff@.len() == 2,
        polys_hold(tx_id_bound(c), table, challenges, r),
        polys_hold(
            lt_polys(
                cell_at(c.tx_table.q_enable, 0),
                cell_at(c.tx_table.tx_id, 0),
                cell_at(c.cum_num_txs, 0),
                c.tx_id_vs_cum_num_txs.lt_chip.lt,
                c.tx_id_vs_cum_num_txs.lt_chip.diff@,
            ),
            table,
            challenges,
            r,
        ),
        eval(
            is_zero_poly(
                cell_at(c.tx_table.q_enable, 0),
                minus(cell_at(c.tx_table.tx_id, 0), cell_at(c.cum_num_txs, 0)),
                c.tx_id_vs_cum_num_txs.eq_chip.value_inv,
            ),
            table,
            challenges,
            r,
        ) == 0,
        forall|i: int|
            0 <= i < 2 ==> eval(
                times(
                    cell_at(c.tx_table.q_enable, 0),
                    cell_at(#[trigger] c.tx_id_vs_cum_num_txs.lt_chip.diff@[i], 0),
                ),
                table,
                challenges,
                r,
            ) < 256,
        eval(cell_at(c.tx_table.q_enable, 0), table, challenges, r) == 1,
        eval(cell_at(c.is_padding_tx, 0), table, challenges, r) == 0,
        eval(is_tag(c, TxFieldTag::BlockNumber, 0), table, challenges, r) == 1,
        eval(cell_at(c.tx_table.tx_id, 0), table, challenges, r) < 65536,
        eval(cell_at(c.cum_num_txs, 0), table, challenges, r) < 65536,
    ensures
        eval(cell_at(c.tx_table.tx_id, 0), table, challenges, r) <= eval(
            cell_at(c.cum_num_txs, 0),
            table,
            challenges,
            r,
        ),
{
    let t = table;
    let q_enable = cell_at(c.tx_table.q_enable, 0);
    let tx_id = cell_at(c.tx_table.tx_id, 0);
    let cum = cell_at(c.cum_num_txs, 0);
    let side = c.tx_id_vs_cum_num_txs.lt_chip;
    let below = cell_at(side.lt, 0);
    let inv = c.tx_id_vs_cum_num_txs.eq_chip.value_inv;
    let equal = c.tx_id_vs_cum_num_txs.eq_chip.is_equal_expression;
    let l = eval(tx_id, t, challenges, r);
    let u = eval(cum, t, challenges, r);
    lemma_eval_range(tx_id, t, challenges, r);
    lemma_eval_range(cum, t, challenges, r);
    lemma_eval_range(below, t, challenges, r);
    lemma_eval_range(equal, t, challenges, r);
    lemma_eval_lit(0, t, challenges, r);
    lemma_eval_lit(1, t, challenges, r);
    // The result of the comparison and of the test for equality add to one.
    let parts = seq![q_enable, not_expr(cell_at(c.is_padding_tx, 0))];
    lemma_eval_not(cell_at(c.is_padding_tx, 0), t, challenges, r);
    assert forall|i: int| 0 <= i < parts.len() implies eval(
        #[trigger] parts[i],
        t,
        challenges,
        r,
    ) == 1 by {}
    lemma_eval_and(parts, t, challenges, r);
    let terms = seq![below, equal];
    let kind = is_tag(c, TxFieldTag::BlockNumber, 0);
    assert(tx_id_bound(c)[0].1 == times(
        and_expr(parts),
        times(times(lit(1), kind), minus(sum_expr(terms), lit(1))),
    ));
    lemma_enforced(and_expr(parts), kind, minus(sum_expr(terms), lit(1)), t, challenges, r);
    lemma_eval_minus(sum_expr(terms), lit(1), t, challenges, r);
    crate::util::lemma_sum(terms, t, challenges, r);
    reveal_with_fuel(crate::util::sum_of, 3);
    assert(terms.drop_last() =~= seq![below]);
    assert(terms.drop_last().drop_last() =~= Seq::<Expr>::empty());
    // The result of the comparison is zero or one.
    let gadget = lt_polys(q_enable, tx_id, cum, side.lt, side.diff@);
    assert(eval(gadget[1].1, t, challenges, r) == 0);
    lemma_eval_times(q_enable, boolean_poly(below), t, challenges, r);
    crate::constraint_builder::lemma_boolean(below, t, challenges, r);
    let b = eval(below, t, challenges, r);
    let e = eval(equal, t, challenges, r);
    vstd::arithmetic::div_mod::lemma_small_mod(b as nat, modulus());
    vstd::arithmetic::div_mod::lemma_small_mod(e as nat, modulus());
    assert(fadd(fadd(0, b), e) == 1);
    if b == 0 {
        // The two are the same.
        assert(e == 1);
        let difference = minus(tx_id, cum);
        lemma_eval_times(q_enable, difference, t, challenges, r);
        lemma_eval_times(times(q_enable, difference), equal, t, challenges, r);
        lemma_eval_minus(tx_id, cum, t, challenges, r);
    } else {
        // The bytes spell the difference of the two, raised by 65536.
        reveal_with_fuel(fpow256, 3);
        reveal_with_fuel(from_bytes_expr, 3);
        vstd::arithmetic::div_mod::lemma_small_mod(1, modulus());
        vstd::arithmetic::div_mod::lemma_small_mod(256, modulus());
        vstd::arithmetic::div_mod::lemma_small_mod(65536, modulus());
        assert(fpow256(1) == 256);
        assert(fpow256(2) == 65536);
        let d0 = cell_at(side.diff@[0], 0);
        let d1 = cell_at(side.diff@[1], 0);
        lemma_eval_times(q_enable, d0, t, challenges, r);
        lemma_eval_times(q_enable, d1, t, challenges, r);
        lemma_eval_range(d0, t, challenges, r);
        lemma_eval_range(d1, t, challenges, r);
        let low = eval(d0, t, challenges, r);
        let high = eval(d1, t, challenges, r);
        assert(0 <= low < 256);
        assert(0 <= high < 256);
        crate::tx_circuit::gadgetry::lemma_eval_scaled(d0, 1, t, challenges, r);
        crate::tx_circuit::gadgetry::lemma_eval_scaled(d1, 256, t, challenges, r);
        crate::tx_circuit::gadgetry::lemma_eval_scaled(below, 65536, t, challenges, r);
        let head = side.diff@.drop_last();
        assert(head.len() == 1);
        assert(head.last() == side.diff@[0]);
        assert(head.drop_last().len() == 0);
        assert(side.diff@.last() == side.diff@[1]);
        let s0 = Expr::Scaled(Box::new(d0), Fe::of_int(fpow256(0)));
        let s1 = Expr::Scaled(Box::new(d1), Fe::of_int(fpow256(1)));
        let spelled = from_bytes_expr(side.diff@, 0);
        assert(spelled == plus(plus(lit(0), s0), s1));
        lemma_eval_plus(lit(0), s0, t, challenges, r);
        lemma_eval_plus(plus(lit(0), s0), s1, t, challenges, r);
        let d = low + 256 * high;
        vstd::arithmetic::div_mod::lemma_small_mod(low as nat, modulus());
        vstd::arithmetic::div_mod::lemma_small_mod((256 * high) as nat, modulus());
        vstd::arithmetic::div_mod::lemma_small_mod(d as nat, modulus());
        assert(fmul(low, 1) == low);
        assert(fmul(high, 256) == 256 * high) by {
            assert(high * 256 == 256 * high);
        }
        assert(eval(spelled, t, challenges, r) == d);
        let check = lt_check(tx_id, cum, side.lt, side.diff@);
        assert(eval(gadget[0].1, t, challenges, r) == 0);
        lemma_eval_times(q_enable, check, t, challenges, r);
        lemma_eval_minus(tx_id, cum, t, challenges, r);
        lemma_eval_minus(minus(tx_id, cum), spelled, t, challenges, r);
        lemma_eval_plus(
            minus(minus(tx_id, cum), spelled),
            Expr::Scaled(Box::new(below), Fe::of_int(fpow256(2))),
            t,
            challenges,
            r,
        );
        assert(fmul(b, 65536) == 65536);
        crate::semantics::lemma_reduced(l - u, d);
        crate::semantics::lemma_reduced(l - u - d, 65536);
        assert(fred(l - u - d + 65536) == 0);
        lemma_small_zero(l - u - d + 65536);
    }
}

} // verus!
