//! The table of a batch satisfies `num_all_txs`, which accounts for the
//! messages taken from the queue.

use crate::expr::cell_at;
use crate::expr::eval;
use crate::expr::lit;
use crate::expr::minus;
use crate::expr::plus;
use crate::field::finv_or_zero;
use crate::field::fred;
use crate::field::fsub;
use crate::field::modulus;
use crate::plonk::polys_hold;
use crate::semantics::is_bit;
use crate::semantics::lemma_eval_and;
use crate::semantics::lemma_eval_cell;
use crate::semantics::lemma_eval_lit;
use crate::semantics::lemma_eval_minus;
use crate::semantics::lemma_eval_not;
use crate::semantics::lemma_eval_plus;
use crate::semantics::lemma_reduced;
use crate::table::TxFieldTag;
use crate::tx_circuit::accounting::contribution;
use crate::tx_circuit::accounting::popped_after;
use crate::tx_circuit::batch::Batch;
use crate::tx_circuit::complete::field_has_inverses;
use crate::tx_circuit::complete::lemma_equality;
use crate::tx_circuit::complete::lemma_first_mark;
use crate::tx_circuit::complete::lemma_is_zero;
use crate::tx_circuit::complete::lemma_meta_cells;
use crate::tx_circuit::complete::lemma_row_kind;
use crate::tx_circuit::complete::lemma_table_size;
use crate::tx_circuit::complete::used;
use crate::tx_circuit::complete::valid;
use crate::tx_circuit::complete::wrapped_view;
use crate::tx_circuit::gates::num_all_txs;
use crate::tx_circuit::rows::lemma_table_cells;
use crate::tx_circuit::rows::lemma_table_len;
use crate::tx_circuit::rows::lemma_table_tail;
use crate::tx_circuit::rows::view_at;
use crate::tx_circuit::stored::bit;
use crate::tx_circuit::synthesis::table;
use crate::tx_circuit::TxCircuitConfig;
use crate::tx_circuit::TX_LEN;
use crate::util::and_expr;
use crate::util::lemma_select;
use crate::util::not_expr;
use crate::util::select_expr;
use crate::witness::TxType;
use vstd::prelude::*;

verus! {

/// The padding is in the block zero and holds no message from the queue,
/// and no transaction is in the block zero.
pub open spec fn padded(b: Batch) -> bool {
    &&& forall|k: int|
        0 <= k < b.padding.len() ==> (#[trigger] b.padding[k]).block_number == 0 && b.padding[k].tx_type
            != TxType::L1Msg
    &&& forall|i: int| 0 <= i < b.txs.len() ==> (#[trigger] b.txs[i]).block_number != 0
}

/// The last row of the header of a transaction and the row after it: the
/// block number that the row announces is the one that the next row
/// carries; and where the next row starts a header, the messages taken from
/// the queue before that header are those taken after this one, and the
/// count of all transactions goes on within a block and starts anew with a
/// block.
pub proof fn lemma_header_end(b: Batch, max_txs: nat, max_calldata: nat, n: int, i: int)
    requires
        b.all().len() == max_txs,
        b.txs.len() <= max_txs,
        b.calldata_len() <= max_calldata,
        max_calldata >= 1,
        padded(b),
        n >= used(max_txs, max_calldata),
        0 <= i < max_txs,
    ensures
        ({
            let r = 1 + i * TX_LEN + 22;
            let v = view_at(b, max_txs, r);
            let w = wrapped_view(b, max_txs, max_calldata, n, r + 1);
            let tx = b.all()[i];
            &&& 0 < r < r + 1 < used(max_txs, max_calldata)
            &&& v.tag == TxFieldTag::BlockNumber
            &&& v.tx_type == tx.tx_type
            &&& v.tx_nonce == tx.nonce
            &&& v.cur_block_num == tx.block_number
            &&& 0 <= v.next_block_num <= u64::MAX
            &&& w.cur_block_num == v.next_block_num
            &&& i + 1 == max_txs ==> w.tag == TxFieldTag::CallData
            &&& i + 1 < max_txs ==> {
                let next = b.all()[i + 1];
                &&& w.tag == TxFieldTag::Nonce
                &&& w.tx_type == next.tx_type
                &&& w.tx_nonce == next.nonce
                &&& w.total_l1_popped_before == popped_after(tx, v.total_l1_popped_before)
                &&& w.num_all_txs_acc == contribution(next, w.total_l1_popped_before) + (if v.next_block_num
                    == v.cur_block_num {
                    v.num_all_txs_acc
                } else {
                    0
                })
            }
        }),
{
    let hl = max_txs * TX_LEN;
    let r = 1 + i * TX_LEN + 22;
    crate::tx_circuit::rows::lemma_view_header(b, max_txs, i, 22);
    crate::tx_circuit::complete::lemma_header_fields(b, i, 22);
    reveal(Batch::header_view);
    reveal(crate::tx_circuit::batch::field_view);
    let count = b.txs.len() as int;
    if i < count {
        assert(b.all()[i] == b.txs[i]);
    } else {
        assert(b.all()[i] == b.padding[i - count]);
    }
    vstd::arithmetic::div_mod::lemma_small_mod((r + 1) as nat, n as nat);
    if i + 1 < max_txs {
        crate::tx_circuit::rows::lemma_view_header(b, max_txs, i + 1, 0);
        crate::tx_circuit::complete::lemma_header_fields(b, i + 1, 0);
        assert(1 + (i + 1) * TX_LEN + 0 == r + 1) by (nonlinear_arith)
            requires
                r == 1 + i * TX_LEN + 22,
        ;
        if i + 1 < count {
            assert(b.all()[i + 1] == b.txs[i + 1]);
        } else {
            assert(b.all()[i + 1] == b.padding[i + 1 - count]);
            assert(b.padding[0].block_number == 0);
        }
    } else {
        assert(r == hl) by (nonlinear_arith)
            requires
                r == 1 + i * TX_LEN + 22,
                i == max_txs - 1,
                hl == max_txs * TX_LEN,
        ;
        crate::tx_circuit::aggregates::lemma_calldata_has_no_block(b, max_txs, max_calldata, r + 1);
        crate::tx_circuit::complete::lemma_calldata_kind(b, max_txs, max_calldata, r + 1);
    }
}

/// Whether a row is of a message from the queue, its nonce, and the inverse
/// that the test for a change of block rests on, as queries evaluate to
/// them on the row that lies `r + rotation` rows after the first.
pub proof fn lemma_queue_cells(
    c: &TxCircuitConfig,
    b: Batch,
    max_txs: nat,
    max_calldata: nat,
    end: nat,
    challenges: Seq<int>,
    r: int,
    rotation: int,
)
    requires
        valid(c, b, max_txs, max_calldata),
        -1000 <= rotation <= 1000,
    ensures
        ({
            let t = table(c, b, max_txs, max_calldata, end);
            let v = wrapped_view(b, max_txs, max_calldata, t.len() as int, r + rotation);
            &&& eval(cell_at(c.is_l1_msg, rotation), t, challenges, r) == bit(
                v.tx_type == TxType::L1Msg,
            )
            &&& eval(cell_at(c.tx_nonce, rotation), t, challenges, r) == fred(v.tx_nonce)
            &&& eval(cell_at(c.is_tag_block_num, rotation), t, challenges, r) == bit(
                v.tag == TxFieldTag::BlockNumber,
            )
            &&& eval(cell_at(c.block_num_unchanged.value_inv, rotation), t, challenges, r) == fred(
                finv_or_zero(fsub(v.next_block_num, v.cur_block_num)),
            )
        }),
{
    reveal(valid);
    let t = table(c, b, max_txs, max_calldata, end);
    lemma_table_len(c, b, max_txs, max_calldata, end);
    let n = t.len() as int;
    let at = (r + rotation) % n;
    lemma_eval_cell(c.is_l1_msg, rotation, t, challenges, r);
    lemma_eval_cell(c.tx_nonce, rotation, t, challenges, r);
    lemma_eval_cell(c.is_tag_block_num, rotation, t, challenges, r);
    lemma_eval_cell(c.block_num_unchanged.value_inv, rotation, t, challenges, r);
    if at < used(max_txs, max_calldata) {
        lemma_table_cells(c, b, max_txs, max_calldata, end, at);
    } else {
        lemma_table_tail(c, b, max_txs, max_calldata, end, at);
    }
    crate::tx_circuit::rows::lemma_view_first(b, max_txs);
}

/// The test whether the block number stays the same from the last row of a
/// header to the next row, as it evaluates on that row.
pub proof fn lemma_same_block(
    c: &TxCircuitConfig,
    b: Batch,
    max_txs: nat,
    max_calldata: nat,
    end: nat,
    challenges: Seq<int>,
    i: int,
)
    requires
        valid(c, b, max_txs, max_calldata),
        field_has_inverses(),
        padded(b),
        0 <= i < max_txs,
    ensures
        ({
            let r = 1 + i * TX_LEN + 22;
            let v = view_at(b, max_txs, r);
            eval(
                c.block_num_unchanged.is_equal_expression,
                table(c, b, max_txs, max_calldata, end),
                challenges,
                r,
            ) == bit(v.next_block_num == v.cur_block_num)
        }),
{
    let t = table(c, b, max_txs, max_calldata, end);
    lemma_table_size(c, b, max_txs, max_calldata, end);
    let n = t.len() as int;
    let r = 1 + i * TX_LEN + 22;
    lemma_header_end(b, max_txs, max_calldata, n, i);
    vstd::arithmetic::div_mod::lemma_small_mod(r as nat, n as nat);
    let v = view_at(b, max_txs, r);
    let now = cell_at(c.block_num, 0);
    let next = cell_at(c.block_num, 1);
    reveal(valid);
    lemma_meta_cells(c, b, max_txs, max_calldata, end, challenges, r, 0);
    lemma_meta_cells(c, b, max_txs, max_calldata, end, challenges, r, 1);
    lemma_queue_cells(c, b, max_txs, max_calldata, end, challenges, r, 0);
    lemma_eval_minus(next, now, t, challenges, r);
    lemma_reduced(v.next_block_num, v.cur_block_num);
    let x = fsub(v.next_block_num, v.cur_block_num);
    assert(eval(minus(next, now), t, challenges, r) == x);
    vstd::arithmetic::div_mod::lemma_small_mod(x as nat, modulus());
    crate::constraint_builder::lemma_fsub_zero(v.next_block_num, v.cur_block_num);
    lemma_eval_cell(c.block_num_unchanged.value_inv, 0, t, challenges, r);
    lemma_is_zero(minus(next, now), c.block_num_unchanged.value_inv, 0, x, t, challenges, r);
}

/// What a transaction adds to the count of all transactions of its block,
/// as the selection by the type of the row evaluates to it on the row that
/// lies `r + rotation` rows after the first.
pub proof fn lemma_contribution(
    c: &TxCircuitConfig,
    b: Batch,
    max_txs: nat,
    max_calldata: nat,
    end: nat,
    challenges: Seq<int>,
    r: int,
    rotation: int,
)
    requires
        valid(c, b, max_txs, max_calldata),
        -1000 <= rotation <= 1000,
    ensures
        ({
            let t = table(c, b, max_txs, max_calldata, end);
            let v = wrapped_view(b, max_txs, max_calldata, t.len() as int, r + rotation);
            &&& eval(
                select_expr(
                    cell_at(c.is_l1_msg, rotation),
                    plus(
                        minus(
                            cell_at(c.tx_nonce, rotation),
                            cell_at(c.total_l1_popped_before, rotation),
                        ),
                        lit(1),
                    ),
                    lit(1),
                ),
                t,
                challenges,
                r,
            ) == fred(
                if v.tx_type == TxType::L1Msg {
                    v.tx_nonce - v.total_l1_popped_before + 1
                } else {
                    1
                },
            )
            &&& eval(
                select_expr(
                    cell_at(c.is_l1_msg, rotation),
                    plus(cell_at(c.tx_nonce, rotation), lit(1)),
                    cell_at(c.total_l1_popped_before, rotation),
                ),
                t,
                challenges,
                r,
            ) == fred(
                if v.tx_type == TxType::L1Msg {
                    v.tx_nonce + 1
                } else {
                    v.total_l1_popped_before
                },
            )
        }),
{
    let t = table(c, b, max_txs, max_calldata, end);
    let v = wrapped_view(b, max_txs, max_calldata, t.len() as int, r + rotation);
    lemma_queue_cells(c, b, max_txs, max_calldata, end, challenges, r, rotation);
    lemma_meta_cells(c, b, max_txs, max_calldata, end, challenges, r, rotation);
    let is_l1_msg = cell_at(c.is_l1_msg, rotation);
    let nonce = cell_at(c.tx_nonce, rotation);
    let popped = cell_at(c.total_l1_popped_before, rotation);
    lemma_eval_lit(1, t, challenges, r);
    lemma_eval_minus(nonce, popped, t, challenges, r);
    lemma_eval_plus(minus(nonce, popped), lit(1), t, challenges, r);
    lemma_eval_plus(nonce, lit(1), t, challenges, r);
    lemma_reduced(v.tx_nonce, v.total_l1_popped_before);
    lemma_reduced(v.tx_nonce - v.total_l1_popped_before, 1);
    lemma_reduced(v.tx_nonce, 1);
    vstd::arithmetic::div_mod::lemma_small_mod(1, modulus());
    lemma_select(is_l1_msg, plus(minus(nonce, popped), lit(1)), lit(1), t, challenges, r);
    lemma_select(is_l1_msg, plus(nonce, lit(1)), popped, t, challenges, r);
}

/// From header to header the messages taken from the queue are accounted
/// for, and the count of all transactions goes on within a block and starts
/// anew with a block: the table satisfies `num_all_txs`.
pub proof fn theorem_num_all_txs(
    c: &TxCircuitConfig,
    b: Batch,
    max_txs: nat,
    max_calldata: nat,
    end: nat,
    challenges: Seq<int>,
    r: int,
)
    requires
        valid(c, b, max_txs, max_calldata),
        field_has_inverses(),
        padded(b),
        0 <= r < table(c, b, max_txs, max_calldata, end).len(),
    ensures
        polys_hold(num_all_txs(c), table(c, b, max_txs, max_calldata, end), challenges, r),
{
    let t = table(c, b, max_txs, max_calldata, end);
    lemma_table_size(c, b, max_txs, max_calldata, end);
    let n = t.len() as int;
    vstd::arithmetic::div_mod::lemma_small_mod(r as nat, n as nat);
    let v = wrapped_view(b, max_txs, max_calldata, n, r);
    let w = wrapped_view(b, max_txs, max_calldata, n, r + 1);
    lemma_row_kind(c, b, max_txs, max_calldata, end, challenges, r, 0, TxFieldTag::Null);
    lemma_row_kind(c, b, max_txs, max_calldata, end, challenges, r, 1, TxFieldTag::Null);
    lemma_queue_cells(c, b, max_txs, max_calldata, end, challenges, r, 0);
    lemma_meta_cells(c, b, max_txs, max_calldata, end, challenges, r, 0);
    lemma_meta_cells(c, b, max_txs, max_calldata, end, challenges, r, 1);
    lemma_contribution(c, b, max_txs, max_calldata, end, challenges, r, 0);
    lemma_contribution(c, b, max_txs, max_calldata, end, challenges, r, 1);
    lemma_first_mark(c, b, max_txs, max_calldata, end, challenges, r, 1);
    // The selector: an enabled row of a header that holds the block number.
    let parts = seq![
        cell_at(c.tx_table.q_enable, 0),
        not_expr(cell_at(c.is_calldata, 0)),
        cell_at(c.is_tag_block_num, 0),
    ];
    let selector = and_expr(parts);
    lemma_eval_not(cell_at(c.is_calldata, 0), t, challenges, r);
    assert forall|i: int| 0 <= i < parts.len() implies is_bit(
        eval(#[trigger] parts[i], t, challenges, r),
    ) by {}
    lemma_eval_and(parts, t, challenges, r);
    let on = eval(selector, t, challenges, r) == 1;
    // The conditions: the next row starts a header of the same block, or of
    // another.
    let same = c.block_num_unchanged.is_equal_expression;
    let header_next = not_expr(cell_at(c.is_calldata, 1));
    let going_on_parts = seq![header_next, same];
    let going_on = and_expr(going_on_parts);
    let anew_parts = seq![header_next, not_expr(same)];
    let anew = and_expr(anew_parts);
    lemma_eval_not(cell_at(c.is_calldata, 1), t, challenges, r);
    let acc = cell_at(c.num_all_txs_acc, 0);
    let acc_next = cell_at(c.num_all_txs_acc, 1);
    let popped_next = cell_at(c.total_l1_popped_before, 1);
    let count = select_expr(
        cell_at(c.is_l1_msg, 0),
        plus(minus(cell_at(c.tx_nonce, 0), cell_at(c.total_l1_popped_before, 0)), lit(1)),
        lit(1),
    );
    let count_next = select_expr(
        cell_at(c.is_l1_msg, 1),
        plus(minus(cell_at(c.tx_nonce, 1), cell_at(c.total_l1_popped_before, 1)), lit(1)),
        lit(1),
    );
    let popped_after_this = select_expr(
        cell_at(c.is_l1_msg, 0),
        plus(cell_at(c.tx_nonce, 0), lit(1)),
        cell_at(c.total_l1_popped_before, 0),
    );
    if on {
        assert(eval(parts[0], t, challenges, r) == 1);
        assert(eval(parts[1], t, challenges, r) == 1);
        assert(eval(parts[2], t, challenges, r) == 1);
        crate::tx_circuit::rows::lemma_view_first(b, max_txs);
        reveal(valid);
        let (i, j) = crate::tx_circuit::stored::lemma_header_row(b, max_txs, max_calldata, r);
        assert(j == 22);
        lemma_header_end(b, max_txs, max_calldata, n, i);
        lemma_same_block(c, b, max_txs, max_calldata, end, challenges, i);
        lemma_eval_not(same, t, challenges, r);
        assert forall|i: int| 0 <= i < going_on_parts.len() implies is_bit(
            eval(#[trigger] going_on_parts[i], t, challenges, r),
        ) by {}
        lemma_eval_and(going_on_parts, t, challenges, r);
        assert forall|i: int| 0 <= i < anew_parts.len() implies is_bit(
            eval(#[trigger] anew_parts[i], t, challenges, r),
        ) by {}
        lemma_eval_and(anew_parts, t, challenges, r);
        vstd::arithmetic::div_mod::lemma_small_mod((r + 1) as nat, n as nat);
        assert(eval(cell_at(c.q_first, 1), t, challenges, r) == 0);
        if eval(going_on, t, challenges, r) != 0 {
            assert(eval(going_on_parts[0], t, challenges, r) == 1);
            assert(eval(going_on_parts[1], t, challenges, r) == 1);
            lemma_eval_minus(acc_next, acc, t, challenges, r);
            lemma_reduced(w.num_all_txs_acc, v.num_all_txs_acc);
        }
        if eval(anew, t, challenges, r) != 0 {
            assert(eval(anew_parts[0], t, challenges, r) == 1);
            assert(eval(anew_parts[1], t, challenges, r) == 1);
        }
    }
    lemma_equality(selector, cell_at(c.q_first, 1), acc, count, t, challenges, r);
    lemma_equality(selector, going_on, popped_next, popped_after_this, t, challenges, r);
    lemma_equality(selector, going_on, minus(acc_next, acc), count_next, t, challenges, r);
    lemma_equality(selector, anew, popped_next, popped_after_this, t, challenges, r);
    lemma_equality(selector, anew, acc_next, count_next, t, challenges, r);
    let gate = num_all_txs(c);
    assert(gate.len() == 5);
    assert forall|k: int| 0 <= k < gate.len() implies eval(#[trigger] gate[k].1, t, challenges, r)
        == 0 by {
        if k == 0 {
        } else if k == 1 {
        } else if k == 2 {
        } else if k == 3 {
        } else {
        }
    }
}

} // verus!
