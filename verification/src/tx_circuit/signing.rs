//! The table of a batch satisfies the gates that speak of the sender and of
//! the signature of a transaction.

use crate::constraint_builder::boolean_poly;
use crate::expr::cell_at;
use crate::expr::eval;
use crate::expr::lit;
use crate::expr::minus;
use crate::expr::times;
use crate::field::fred;
use crate::field::modulus;
use crate::gadgets::is_zero_expr;
use crate::plonk::polys_hold;
use crate::semantics::is_bit;
use crate::semantics::lemma_eval_and;
use crate::semantics::lemma_eval_lit;
use crate::semantics::lemma_eval_minus;
use crate::semantics::lemma_eval_not;
use crate::semantics::lemma_eval_times;
use crate::semantics::lemma_reduced;
use crate::table::TxFieldTag;
use crate::tx_circuit::batch::Batch;
use crate::tx_circuit::complete::field_has_inverses;
use crate::tx_circuit::complete::lemma_calldata_cells;
use crate::tx_circuit::complete::lemma_equality;
use crate::tx_circuit::complete::lemma_meta_cells;
use crate::tx_circuit::complete::lemma_table_size;
use crate::tx_circuit::complete::lemma_vanishing;
use crate::tx_circuit::complete::valid;
use crate::tx_circuit::complete::wrapped_view;
use crate::tx_circuit::gates::caller_address;
use crate::tx_circuit::gates::is_padding_tx;
use crate::tx_circuit::gates::is_tag;
use crate::tx_circuit::gates::is_type;
use crate::tx_circuit::gates::signature_v;
use crate::tx_circuit::stored::lemma_header_row;
use crate::tx_circuit::stored::lemma_row_kinds;
use crate::tx_circuit::stored::lemma_stored;
use crate::tx_circuit::synthesis::table;
use crate::tx_circuit::TxCircuitConfig;
use crate::tx_circuit::TX_LEN;
use crate::util::and_expr;
use crate::util::not_expr;
use crate::witness::horner;
use crate::witness::Transaction;
use crate::witness::TxType;
use vstd::prelude::*;

verus! {

/// A fingerprint is an element of the field.
pub proof fn lemma_horner_range(bytes: Seq<u8>, base: int)
    ensures
        0 <= horner(bytes, base) < modulus(),
    decreases bytes.len(),
{
}

/// The address of the sender of a transaction, read as a number.
pub open spec fn sender(tx: Transaction) -> int {
    horner(tx.caller_address@, 256)
}

/// The transactions have a sender, and the padding has none.
pub open spec fn senders_known(b: Batch) -> bool {
    &&& forall|i: int| 0 <= i < b.txs.len() ==> sender(#[trigger] b.txs[i]) != 0
    &&& forall|k: int| 0 <= k < b.padding.len() ==> sender(#[trigger] b.padding[k]) == 0
}

/// The recovery value of the signature of a transaction is the one that its
/// type asks for: with the chain id bound in, without it, or none.
pub open spec fn recovery_value_fits(tx: Transaction) -> bool {
    match tx.tx_type {
        TxType::Eip155 => tx.v == 2 * tx.chain_id + 35 || tx.v == 2 * tx.chain_id + 36,
        TxType::PreEip155 => tx.v == 27 || tx.v == 28,
        TxType::L1Msg => tx.v == 0,
        _ => true,
    }
}

/// The signature of each transaction is of the kind that its type asks for,
/// and the address that was recovered from it is the sender, where the
/// transaction has a sender and is no message from the queue.
pub open spec fn signatures_fit(b: Batch) -> bool {
    forall|i: int|
        0 <= i < b.all().len() ==> {
            &&& recovery_value_fits(#[trigger] b.all()[i])
            &&& b.all()[i].tx_type != TxType::L1Msg && sender(b.all()[i]) != 0 ==> horner(
                b.sigs[i].address@,
                256,
            ) == sender(b.all()[i])
        }
}

/// What the rows of a header hold of the sender and of the signature.
pub proof fn lemma_header_signs(b: Batch, i: int)
    requires
        0 <= i < b.all().len(),
    ensures
        b.header_view(i, 3).value == sender(b.all()[i]),
        b.header_view(i, 3).sv_address == horner(b.sigs[i].address@, 256),
        b.header_view(i, 3).is_padding_tx == (i >= b.txs.len()),
        b.header_view(i, 11).value == b.all()[i].chain_id,
        b.header_view(i, 12).value == b.all()[i].v,
        0 <= sender(b.all()[i]) < modulus(),
{
    reveal(Batch::header_view);
    reveal(crate::tx_circuit::batch::field_view);
    lemma_horner_range(b.all()[i].caller_address@, 256);
}

/// The header of a transaction has a sender, and the header of a padding has
/// none: the table satisfies `is_padding_tx`.
pub proof fn theorem_is_padding_tx(
    c: &TxCircuitConfig,
    b: Batch,
    max_txs: nat,
    max_calldata: nat,
    end: nat,
    challenges: Seq<int>,
    r: int,
)
    requires
        valid(c, b, max_txs, max_calldata),
        field_has_inverses(),
        senders_known(b),
        0 <= r < table(c, b, max_txs, max_calldata, end).len(),
    ensures
        polys_hold(is_padding_tx(c), table(c, b, max_txs, max_calldata, end), challenges, r),
{
    let t = table(c, b, max_txs, max_calldata, end);
    lemma_table_size(c, b, max_txs, max_calldata, end);
    let n = t.len() as int;
    vstd::arithmetic::div_mod::lemma_small_mod(r as nat, n as nat);
    let v = wrapped_view(b, max_txs, max_calldata, n, r);
    lemma_row_kinds(c, b, max_txs, max_calldata, end, challenges, r, 0);
    lemma_stored(c, b, max_txs, max_calldata, end, challenges, r);
    lemma_meta_cells(c, b, max_txs, max_calldata, end, challenges, r, 0);
    lemma_calldata_cells(c, b, max_txs, max_calldata, end, challenges, r, 0);
    let selector = cell_at(c.tx_table.q_enable, 0);
    let condition = is_tag(c, TxFieldTag::CallerAddress, 0);
    let flag = cell_at(c.is_padding_tx, 0);
    let none = is_zero_expr(cell_at(c.value_is_zero.value, 0), c.value_is_zero.value_inv, 0);
    if eval(selector, t, challenges, r) != 0 && v.tag == TxFieldTag::CallerAddress {
        reveal(valid);
        let (i, j) = lemma_header_row(b, max_txs, max_calldata, r);
        lemma_header_signs(b, i);
        if i < b.txs.len() {
            assert(b.all()[i] == b.txs[i]);
        } else {
            assert(b.all()[i] == b.padding[i - b.txs.len()]);
        }
        vstd::arithmetic::div_mod::lemma_small_mod(v.value as nat, modulus());
        vstd::arithmetic::div_mod::lemma_small_mod(1, modulus());
    }
    lemma_equality(selector, condition, flag, none, t, challenges, r);
    assert(is_padding_tx(c)[0].1 == times(
        selector,
        times(times(lit(1), condition), minus(flag, none)),
    ));
}

/// The sender of a signed transaction is the address that was recovered
/// from its signature: the table satisfies `caller_address`.
pub proof fn theorem_caller_address(
    c: &TxCircuitConfig,
    b: Batch,
    max_txs: nat,
    max_calldata: nat,
    end: nat,
    challenges: Seq<int>,
    r: int,
)
    requires
        valid(c, b, max_txs, max_calldata),
        field_has_inverses(),
        signatures_fit(b),
        0 <= r < table(c, b, max_txs, max_calldata, end).len(),
    ensures
        polys_hold(caller_address(c), table(c, b, max_txs, max_calldata, end), challenges, r),
{
    let t = table(c, b, max_txs, max_calldata, end);
    lemma_table_size(c, b, max_txs, max_calldata, end);
    let n = t.len() as int;
    vstd::arithmetic::div_mod::lemma_small_mod(r as nat, n as nat);
    let v = wrapped_view(b, max_txs, max_calldata, n, r);
    lemma_row_kinds(c, b, max_txs, max_calldata, end, challenges, r, 0);
    lemma_stored(c, b, max_txs, max_calldata, end, challenges, r);
    lemma_meta_cells(c, b, max_txs, max_calldata, end, challenges, r, 0);
    lemma_calldata_cells(c, b, max_txs, max_calldata, end, challenges, r, 0);
    let parts = seq![
        cell_at(c.tx_table.q_enable, 0),
        cell_at(c.is_caller_address, 0),
        not_expr(cell_at(c.is_l1_msg, 0)),
    ];
    let selector = and_expr(parts);
    lemma_eval_not(cell_at(c.is_l1_msg, 0), t, challenges, r);
    assert forall|i: int| 0 <= i < parts.len() implies is_bit(
        eval(#[trigger] parts[i], t, challenges, r),
    ) by {}
    lemma_eval_and(parts, t, challenges, r);
    let none = is_zero_expr(cell_at(c.value_is_zero.value, 0), c.value_is_zero.value_inv, 0);
    let condition = not_expr(none);
    lemma_eval_not(none, t, challenges, r);
    if eval(selector, t, challenges, r) != 0 && eval(condition, t, challenges, r) != 0 {
        assert(eval(parts[0], t, challenges, r) == 1);
        assert(eval(parts[1], t, challenges, r) == 1);
        assert(eval(parts[2], t, challenges, r) == 1);
        reveal(valid);
        let (i, j) = lemma_header_row(b, max_txs, max_calldata, r);
        lemma_header_signs(b, i);
        vstd::arithmetic::div_mod::lemma_small_mod(v.value as nat, modulus());
    }
    lemma_equality(
        selector,
        condition,
        cell_at(c.tx_table.value, 0),
        cell_at(c.sv_address, 0),
        t,
        challenges,
        r,
    );
    assert(caller_address(c)[0].1 == times(
        selector,
        times(
            times(lit(1), condition),
            minus(cell_at(c.tx_table.value, 0), cell_at(c.sv_address, 0)),
        ),
    ));
}

/// The recovery value of the signature of a transaction is the one that its
/// type asks for: the table satisfies `signature_v`.
pub proof fn theorem_signature_v(
    c: &TxCircuitConfig,
    b: Batch,
    max_txs: nat,
    max_calldata: nat,
    end: nat,
    challenges: Seq<int>,
    r: int,
)
    requires
        valid(c, b, max_txs, max_calldata),
        field_has_inverses(),
        signatures_fit(b),
        0 <= r < table(c, b, max_txs, max_calldata, end).len(),
    ensures
        polys_hold(signature_v(c), table(c, b, max_txs, max_calldata, end), challenges, r),
{
    let t = table(c, b, max_txs, max_calldata, end);
    lemma_table_size(c, b, max_txs, max_calldata, end);
    let n = t.len() as int;
    vstd::arithmetic::div_mod::lemma_small_mod(r as nat, n as nat);
    let v = wrapped_view(b, max_txs, max_calldata, n, r);
    lemma_row_kinds(c, b, max_txs, max_calldata, end, challenges, r, 0);
    lemma_stored(c, b, max_txs, max_calldata, end, challenges, r);
    lemma_meta_cells(c, b, max_txs, max_calldata, end, challenges, r, 0);
    lemma_calldata_cells(c, b, max_txs, max_calldata, end, challenges, r, 0);
    lemma_calldata_cells(c, b, max_txs, max_calldata, end, challenges, r, 1);
    let w = wrapped_view(b, max_txs, max_calldata, n, r + 1);
    let selector = cell_at(c.tx_table.q_enable, 0);
    let chain_id = cell_at(c.tx_table.value, 0);
    let recovery = cell_at(c.tx_table.value, 1);
    let bound_parts = seq![cell_at(c.is_chain_id, 0), is_type(c, TxType::Eip155)];
    let bound = and_expr(bound_parts);
    let free_parts = seq![cell_at(c.is_chain_id, 0), is_type(c, TxType::PreEip155)];
    let free = and_expr(free_parts);
    let message_parts = seq![cell_at(c.is_chain_id, 0), is_type(c, TxType::L1Msg)];
    let message = and_expr(message_parts);
    assert forall|i: int| 0 <= i < bound_parts.len() implies is_bit(
        eval(#[trigger] bound_parts[i], t, challenges, r),
    ) by {}
    lemma_eval_and(bound_parts, t, challenges, r);
    assert forall|i: int| 0 <= i < free_parts.len() implies is_bit(
        eval(#[trigger] free_parts[i], t, challenges, r),
    ) by {}
    lemma_eval_and(free_parts, t, challenges, r);
    assert forall|i: int| 0 <= i < message_parts.len() implies is_bit(
        eval(#[trigger] message_parts[i], t, challenges, r),
    ) by {}
    lemma_eval_and(message_parts, t, challenges, r);
    let doubled = times(chain_id, lit(2));
    let over_bound = minus(minus(recovery, doubled), lit(35));
    let over_free = minus(recovery, lit(27));
    lemma_eval_lit(2, t, challenges, r);
    lemma_eval_lit(35, t, challenges, r);
    lemma_eval_lit(27, t, challenges, r);
    lemma_eval_times(chain_id, lit(2), t, challenges, r);
    lemma_eval_minus(recovery, doubled, t, challenges, r);
    lemma_eval_minus(minus(recovery, doubled), lit(35), t, challenges, r);
    lemma_eval_minus(recovery, lit(27), t, challenges, r);
    if eval(selector, t, challenges, r) != 0 && v.tag == TxFieldTag::ChainID {
        reveal(valid);
        let (i, j) = lemma_header_row(b, max_txs, max_calldata, r);
        assert(j == 11);
        lemma_header_signs(b, i);
        crate::tx_circuit::rows::lemma_view_header(b, max_txs, i, 12);
        vstd::arithmetic::div_mod::lemma_small_mod((r + 1) as nat, n as nat);
        let tx = b.all()[i];
        assert(recovery_value_fits(tx));
        assert(w.value == tx.v);
        assert(v.value == tx.chain_id);
        lemma_reduced(v.value, 2);
        vstd::arithmetic::div_mod::lemma_small_mod(2, modulus());
        lemma_reduced(w.value, v.value * 2);
        lemma_reduced(w.value - v.value * 2, 35);
        lemma_reduced(w.value, 27);
        vstd::arithmetic::div_mod::lemma_small_mod(35, modulus());
        vstd::arithmetic::div_mod::lemma_small_mod(27, modulus());
        vstd::arithmetic::div_mod::lemma_small_mod(0, modulus());
        vstd::arithmetic::div_mod::lemma_small_mod(1, modulus());
        if v.tx_type == TxType::Eip155 {
            assert(eval(over_bound, t, challenges, r) == fred(w.value - v.value * 2 - 35));
        } else if v.tx_type == TxType::PreEip155 {
            assert(eval(over_free, t, challenges, r) == fred(w.value - 27));
        }
    } else if eval(selector, t, challenges, r) != 0 {
        assert(eval(bound_parts[0], t, challenges, r) != 1);
        assert(eval(free_parts[0], t, challenges, r) != 1);
        assert(eval(message_parts[0], t, challenges, r) != 1);
    }
    if v.tx_type != TxType::Eip155 {
        assert(eval(bound_parts[1], t, challenges, r) != 1);
    }
    if v.tx_type != TxType::PreEip155 {
        assert(eval(free_parts[1], t, challenges, r) != 1);
    }
    if v.tx_type != TxType::L1Msg {
        assert(eval(message_parts[1], t, challenges, r) != 1);
    }
    crate::constraint_builder::lemma_boolean(over_bound, t, challenges, r);
    crate::constraint_builder::lemma_boolean(over_free, t, challenges, r);
    lemma_vanishing(selector, bound, boolean_poly(over_bound), t, challenges, r);
    lemma_vanishing(selector, free, boolean_poly(over_free), t, challenges, r);
    lemma_vanishing(selector, message, recovery, t, challenges, r);
    let gate = signature_v(c);
    assert(gate.len() == 3);
    assert forall|k: int| 0 <= k < gate.len() implies eval(#[trigger] gate[k].1, t, challenges, r)
        == 0 by {
        if k == 0 {
        } else if k == 1 {
        } else {
        }
    }
}

/// The rows of the header of a padding carry the padding flag, and the rows
/// of the header of a transaction do not.
pub proof fn lemma_header_flag(b: Batch, i: int, j: int)
    requires
        0 <= i < b.all().len(),
        0 <= j < TX_LEN,
    ensures
        b.header_view(i, j).is_padding_tx == (i >= b.txs.len()),
{
    reveal(Batch::header_view);
}

/// A row of the room for calldata carries no padding flag.
pub proof fn lemma_calldata_flag(b: Batch, max_txs: nat, max_calldata: nat, r: int)
    requires
        b.txs.len() <= max_txs,
        max_txs * TX_LEN < r < crate::tx_circuit::complete::used(max_txs, max_calldata),
    ensures
        !crate::tx_circuit::rows::view_at(b, max_txs, r).is_padding_tx,
{
    let p = r - 1 - max_txs * TX_LEN;
    if p < b.calldata_len() {
        reveal(crate::tx_circuit::batch::calldata_row_view);
        crate::tx_circuit::rows::lemma_owner(b.txs, b.txs.len(), p);
        let o = crate::tx_circuit::rows::owner(b.txs, b.txs.len(), p);
        crate::tx_circuit::rows::lemma_view_calldata(b, max_txs, o.0, o.1);
    } else {
        crate::tx_circuit::rows::lemma_view_empty(b, max_txs, r);
    }
}

} // verus!
