//! The table of a batch satisfies the gates that compare the sequence
//! number of a transaction with the counts of its block.

use crate::expr::cell_at;
use crate::expr::eval;
use crate::expr::lit;
use crate::expr::minus;
use crate::expr::times;
use crate::field::finv_or_zero;
use crate::field::fred;
use crate::field::fsub;
use crate::field::modulus;
use crate::gadgets::byte_of;
use crate::gadgets::lemma_lt_filled;
use crate::gadgets::lt_diff;
use crate::gadgets::lt_filled;
use crate::expr::Column;
use crate::plonk::polys_hold;
use crate::plonk::zero_row;
use crate::semantics::is_bit;
use crate::semantics::lemma_eval_and;
use crate::semantics::lemma_eval_cell;
use crate::semantics::lemma_eval_lit;
use crate::semantics::lemma_eval_minus;
use crate::semantics::lemma_eval_not;
use crate::semantics::lemma_eval_sum;
use crate::semantics::lemma_reduced;
use crate::table::TxFieldTag;
use crate::tx_circuit::accounting::count_in_block;
use crate::tx_circuit::accounting::count_up_to_block;
use crate::tx_circuit::aggregates::sorted_by_block;
use crate::tx_circuit::assign::bool_value;
use crate::tx_circuit::assign::row_cells;
use crate::tx_circuit::assign::RowView;
use crate::tx_circuit::batch::Batch;
use crate::tx_circuit::complete::field_has_inverses;
use crate::tx_circuit::complete::lemma_equality;
use crate::tx_circuit::complete::lemma_is_zero;
use crate::tx_circuit::complete::lemma_meta_cells;
use crate::tx_circuit::complete::lemma_row_kind;
use crate::tx_circuit::complete::lemma_table_size;
use crate::tx_circuit::complete::used;
use crate::tx_circuit::complete::valid;
use crate::tx_circuit::complete::wrapped_view;
use crate::tx_circuit::gates::is_tag;
use crate::tx_circuit::gates::last_tx_id;
use crate::tx_circuit::gates::tx_id_bound;
use crate::tx_circuit::rows::lemma_table_len;
use crate::tx_circuit::rows::lemma_table_tail;
use crate::tx_circuit::rows::lemma_table_view;
use crate::tx_circuit::rows::view_at;
use crate::tx_circuit::stored::bit;
use crate::tx_circuit::stored::lemma_row_kinds;
use crate::tx_circuit::stored::lemma_stored;
use crate::tx_circuit::synthesis::table;
use crate::tx_circuit::TxCircuitConfig;
use crate::tx_circuit::TX_LEN;
use crate::util::and_expr;
use crate::util::not_expr;
use crate::util::sum_expr;
use crate::witness::Transaction;
use vstd::prelude::*;

verus! {

/// The cells that a comparison fills in: the result, and the bytes of the
/// difference.
pub proof fn lemma_lt_cells(
    row: Seq<int>,
    lt: Column,
    diff: Seq<Column>,
    lhs: int,
    rhs: int,
    n: nat,
    i: int,
)
    requires
        n <= diff.len(),
        lt.index < row.len(),
        forall|a: int| 0 <= a < diff.len() ==> (#[trigger] diff[a]).index < row.len(),
        forall|a: int| 0 <= a < diff.len() ==> (#[trigger] diff[a]).index != lt.index,
        forall|a: int, b: int| 0 <= a < b < diff.len() ==> diff[a].index != diff[b].index,
    ensures
        lt_filled(row, lt, diff, lhs, rhs, n)[lt.index as int] == (if lhs < rhs {
            1int
        } else {
            0int
        }),
        0 <= i < n ==> lt_filled(row, lt, diff, lhs, rhs, n)[diff[i].index as int] == byte_of(
            lt_diff(lhs, rhs, diff.len()) % 0x1_0000_0000_0000_0000int,
            i as nat,
        ),
    decreases n,
{
    if n > 0 {
        lemma_lt_filled(row, lt, diff, lhs, rhs, (n - 1) as nat);
        lemma_lt_cells(row, lt, diff, lhs, rhs, (n - 1) as nat, i);
    }
}

/// The cells of the two comparisons of a row hold their results, the bytes
/// of their differences, and the inverse, or zero, of the difference of the
/// sequence number and the cumulative count.
pub proof fn lemma_row_compared(c: &TxCircuitConfig, base: Seq<int>, v: RowView)
    requires
        c.well_formed(),
        base.len() == c.width(),
    ensures
        row_cells(c, base, v)[c.tx_id_vs_cum_num_txs.lt_chip.lt.index as int] == bool_value(
            v.tx_id < v.cum_num_txs,
        ),
        row_cells(c, base, v)[c.tx_id_vs_cum_num_txs.eq_chip.value_inv.index as int]
            == finv_or_zero(fsub(v.tx_id, v.cum_num_txs)),
        row_cells(c, base, v)[c.tx_id_gt_prev_cnt.lt.index as int] == bool_value(
            v.cum_num_txs - v.num_txs < v.tx_id,
        ),
        forall|i: int|
            0 <= i < 2 ==> row_cells(c, base, v)[(
            #[trigger] c.tx_id_vs_cum_num_txs.lt_chip.diff@[i]).index as int] == byte_of(
                lt_diff(v.tx_id, v.cum_num_txs, 2) % 0x1_0000_0000_0000_0000int,
                i as nat,
            ),
        forall|i: int|
            0 <= i < 2 ==> row_cells(c, base, v)[(#[trigger] c.tx_id_gt_prev_cnt.diff@[i]).index as int]
                == byte_of(
                lt_diff(v.cum_num_txs - v.num_txs, v.tx_id, 2) % 0x1_0000_0000_0000_0000int,
                i as nat,
            ),
{
    reveal(row_cells);
    let b1 = crate::tx_circuit::assign::row_cells_1(c, base, v);
    crate::tx_circuit::assign::lemma_row_cells_1(c, base, v);
    let b2 = crate::tx_circuit::assign::row_cells_2(c, b1, v);
    crate::tx_circuit::assign::lemma_row_cells_2(c, b1, v);
    let b3 = crate::tx_circuit::assign::row_cells_3(c, b2, v);
    crate::tx_circuit::assign::lemma_row_cells_3(c, b2, v);
    let b4 = crate::tx_circuit::assign::row_cells_4(c, b3, v);
    crate::tx_circuit::assign::lemma_row_cells_4(c, b3, v);
    let b5 = crate::tx_circuit::assign::row_cells_5(c, b4, v);
    crate::tx_circuit::assign::lemma_row_cells_5(c, b4, v);
    let b6 = crate::tx_circuit::assign::row_cells_6(c, b5, v);
    crate::tx_circuit::assign::lemma_row_cells_6(c, b5, v);
    let b7 = crate::tx_circuit::assign::row_cells_7(c, b6, v);
    crate::tx_circuit::assign::lemma_row_cells_7(c, b6, v);
    let b8 = crate::tx_circuit::assign::row_cells_8(c, b7, v);
    crate::tx_circuit::assign::lemma_row_cells_8(c, b7, v);
    let b9 = crate::tx_circuit::assign::row_cells_9(c, b8, v);
    crate::tx_circuit::assign::lemma_row_cells_9(c, b8, v);
    let upper = c.tx_id_vs_cum_num_txs.lt_chip;
    let gt = c.tx_id_gt_prev_cnt;
    lemma_lt_filled(b6, upper.lt, upper.diff@, v.tx_id, v.cum_num_txs, 2);
    lemma_lt_cells(b6, upper.lt, upper.diff@, v.tx_id, v.cum_num_txs, 2, 0);
    lemma_lt_cells(b6, upper.lt, upper.diff@, v.tx_id, v.cum_num_txs, 2, 1);
    lemma_lt_cells(b7, gt.lt, gt.diff@, v.cum_num_txs - v.num_txs, v.tx_id, 2, 0);
    lemma_lt_cells(b7, gt.lt, gt.diff@, v.cum_num_txs - v.num_txs, v.tx_id, 2, 1);
    assert(b8[upper.lt.index as int] == b7[upper.lt.index as int]);
    assert(b9[upper.lt.index as int] == b8[upper.lt.index as int]);
    assert(b8[c.tx_id_vs_cum_num_txs.eq_chip.value_inv.index as int]
        == b7[c.tx_id_vs_cum_num_txs.eq_chip.value_inv.index as int]);
    assert(b9[gt.lt.index as int] == b8[gt.lt.index as int]);
    assert forall|i: int| 0 <= i < 2 implies b9[(#[trigger] upper.diff@[i]).index as int] == byte_of(
        lt_diff(v.tx_id, v.cum_num_txs, 2) % 0x1_0000_0000_0000_0000int,
        i as nat,
    ) by {
        assert(b8[upper.diff@[i].index as int] == b7[upper.diff@[i].index as int]);
        assert(b9[upper.diff@[i].index as int] == b8[upper.diff@[i].index as int]);
    }
    assert forall|i: int| 0 <= i < 2 implies b9[(#[trigger] gt.diff@[i]).index as int] == byte_of(
        lt_diff(v.cum_num_txs - v.num_txs, v.tx_id, 2) % 0x1_0000_0000_0000_0000int,
        i as nat,
    ) by {
        assert(b9[gt.diff@[i].index as int] == b8[gt.diff@[i].index as int]);
    }
}

/// Of transactions in the order of their blocks, each one up to a
/// transaction is in the block of that transaction or in a block before it.
pub proof fn lemma_counted_so_far(txs: Seq<Transaction>, i: int, m: nat)
    requires
        sorted_by_block(txs),
        0 <= i < txs.len(),
        m <= i + 1,
    ensures
        count_up_to_block(txs, txs[i].block_number, m) == m,
    decreases m,
{
    if m > 0 {
        lemma_counted_so_far(txs, i, (m - 1) as nat);
        if m - 1 < i {
            assert(txs[m - 1].block_number <= txs[i].block_number);
        }
    }
}

/// The more transactions are counted, the more there are up to a block.
pub proof fn lemma_count_grows(txs: Seq<Transaction>, block: u64, m: nat, n: nat)
    requires
        m <= n,
    ensures
        count_up_to_block(txs, block, m) <= count_up_to_block(txs, block, n),
    decreases n,
{
    if m < n {
        lemma_count_grows(txs, block, m, (n - 1) as nat);
    }
}

/// Of transactions in the order of their blocks, those in the blocks before
/// the block of a transaction come before the transaction.
pub proof fn lemma_before_block(txs: Seq<Transaction>, i: int, n: nat)
    requires
        sorted_by_block(txs),
        0 <= i < txs.len(),
        n <= txs.len(),
    ensures
        count_up_to_block(txs, txs[i].block_number, n) - count_in_block(
            txs,
            txs[i].block_number,
            n,
        ) <= i,
        count_up_to_block(txs, txs[i].block_number, n) - count_in_block(
            txs,
            txs[i].block_number,
            n,
        ) <= n,
    decreases n,
{
    if n > 0 {
        lemma_before_block(txs, i, (n - 1) as nat);
        if n - 1 > i {
            assert(txs[i].block_number <= txs[n - 1].block_number);
        }
    }
}

/// The results of the two comparisons of a row, the bytes of their
/// differences, and the inverse that the test for equality rests on, as
/// queries evaluate to them on the row `r`.
pub proof fn lemma_compared_cells(
    c: &TxCircuitConfig,
    b: Batch,
    max_txs: nat,
    max_calldata: nat,
    end: nat,
    challenges: Seq<int>,
    r: int,
)
    requires
        valid(c, b, max_txs, max_calldata),
    ensures
        ({
            let t = table(c, b, max_txs, max_calldata, end);
            let v = wrapped_view(b, max_txs, max_calldata, t.len() as int, r);
            let upper = c.tx_id_vs_cum_num_txs.lt_chip;
            let lower = c.tx_id_gt_prev_cnt;
            &&& eval(cell_at(upper.lt, 0), t, challenges, r) == bit(v.tx_id < v.cum_num_txs)
            &&& eval(cell_at(lower.lt, 0), t, challenges, r) == bit(
                v.cum_num_txs - v.num_txs < v.tx_id,
            )
            &&& eval(
                cell_at(c.tx_id_vs_cum_num_txs.eq_chip.value_inv, 0),
                t,
                challenges,
                r,
            ) == fred(finv_or_zero(fsub(v.tx_id, v.cum_num_txs)))
            &&& forall|i: int|
                0 <= i < 2 ==> eval(cell_at(#[trigger] upper.diff@[i], 0), t, challenges, r)
                    == fred(
                    byte_of(
                        lt_diff(v.tx_id, v.cum_num_txs, 2) % 0x1_0000_0000_0000_0000int,
                        i as nat,
                    ),
                )
            &&& forall|i: int|
                0 <= i < 2 ==> eval(cell_at(#[trigger] lower.diff@[i], 0), t, challenges, r)
                    == fred(
                    byte_of(
                        lt_diff(v.cum_num_txs - v.num_txs, v.tx_id, 2)
                            % 0x1_0000_0000_0000_0000int,
                        i as nat,
                    ),
                )
        }),
{
    reveal(valid);
    let t = table(c, b, max_txs, max_calldata, end);
    lemma_table_len(c, b, max_txs, max_calldata, end);
    let n = t.len() as int;
    let at = r % n;
    let v = wrapped_view(b, max_txs, max_calldata, n, r);
    let upper = c.tx_id_vs_cum_num_txs.lt_chip;
    let lower = c.tx_id_gt_prev_cnt;
    lemma_eval_cell(upper.lt, 0, t, challenges, r);
    lemma_eval_cell(lower.lt, 0, t, challenges, r);
    lemma_eval_cell(c.tx_id_vs_cum_num_txs.eq_chip.value_inv, 0, t, challenges, r);
    crate::tx_circuit::rows::lemma_view_first(b, max_txs);
    crate::gadgets::lemma_pow256_positive(0);
    crate::gadgets::lemma_pow256_positive(1);
    if at < used(max_txs, max_calldata) {
        lemma_table_view(c, b, max_txs, max_calldata, end, at);
        lemma_row_compared(c, zero_row(c.width()), view_at(b, max_txs, at));
    } else {
        lemma_table_tail(c, b, max_txs, max_calldata, end, at);
        vstd::arithmetic::div_mod::lemma_small_mod(0, modulus());
    }
    assert forall|i: int| 0 <= i < 2 implies eval(
        cell_at(#[trigger] upper.diff@[i], 0),
        t,
        challenges,
        r,
    ) == fred(
        byte_of(lt_diff(v.tx_id, v.cum_num_txs, 2) % 0x1_0000_0000_0000_0000int, i as nat),
    ) by {
        lemma_eval_cell(upper.diff@[i], 0, t, challenges, r);
    }
    assert forall|i: int| 0 <= i < 2 implies eval(
        cell_at(#[trigger] lower.diff@[i], 0),
        t,
        challenges,
        r,
    ) == fred(
        byte_of(
            lt_diff(v.cum_num_txs - v.num_txs, v.tx_id, 2) % 0x1_0000_0000_0000_0000int,
            i as nat,
        ),
    ) by {
        lemma_eval_cell(lower.diff@[i], 0, t, challenges, r);
    }
}

/// Of transactions in the order of their blocks, a transaction that only
/// transactions of later blocks follow is the last that is counted up to
/// its block.
pub proof fn lemma_count_stops(txs: Seq<Transaction>, i: int, n: nat)
    requires
        sorted_by_block(txs),
        0 <= i < n <= txs.len(),
        forall|j: int| i < j < n ==> (#[trigger] txs[j]).block_number != txs[i].block_number,
    ensures
        count_up_to_block(txs, txs[i].block_number, n) == i + 1,
    decreases n,
{
    if n == i + 1 {
        lemma_counted_so_far(txs, i, n);
    } else {
        lemma_count_stops(txs, i, (n - 1) as nat);
        assert(txs[i].block_number <= txs[n - 1].block_number);
        assert(txs[n - 1].block_number != txs[i].block_number);
    }
}

/// The last transaction of a block has as its sequence number the number of
/// the transactions up to and including the block, where the padding
/// follows it and where a transaction of another block does: the table
/// satisfies `last_tx_id`.
pub proof fn theorem_last_tx_id(
    c: &TxCircuitConfig,
    b: Batch,
    max_txs: nat,
    max_calldata: nat,
    end: nat,
    challenges: Seq<int>,
    r: int,
)
    requires
        valid(c, b, max_txs, max_calldata),
        field_has_inverses(),
        crate::tx_circuit::queue::padded(b),
        sorted_by_block(b.txs),
        0 <= r < table(c, b, max_txs, max_calldata, end).len(),
    ensures
        polys_hold(last_tx_id(c), table(c, b, max_txs, max_calldata, end), challenges, r),
{
    let t = table(c, b, max_txs, max_calldata, end);
    lemma_table_size(c, b, max_txs, max_calldata, end);
    let n = t.len() as int;
    vstd::arithmetic::div_mod::lemma_small_mod(r as nat, n as nat);
    let v = wrapped_view(b, max_txs, max_calldata, n, r);
    let w = wrapped_view(b, max_txs, max_calldata, n, r + 1);
    lemma_stored(c, b, max_txs, max_calldata, end, challenges, r);
    lemma_row_kind(c, b, max_txs, max_calldata, end, challenges, r, 0, TxFieldTag::Null);
    lemma_meta_cells(c, b, max_txs, max_calldata, end, challenges, r, 0);
    lemma_meta_cells(c, b, max_txs, max_calldata, end, challenges, r, 1);
    vstd::arithmetic::div_mod::lemma_small_mod(0, modulus());
    vstd::arithmetic::div_mod::lemma_small_mod(1, modulus());
    let selector = cell_at(c.tx_table.q_enable, 0);
    let same = c.block_num_unchanged.is_equal_expression;
    let before_padding_parts = seq![
        cell_at(c.is_tag_block_num, 0),
        not_expr(cell_at(c.is_padding_tx, 0)),
        cell_at(c.is_padding_tx, 1),
    ];
    let before_padding = and_expr(before_padding_parts);
    let block_ends_parts = seq![
        cell_at(c.is_tag_block_num, 0),
        not_expr(cell_at(c.is_padding_tx, 0)),
        not_expr(same),
    ];
    let block_ends = and_expr(block_ends_parts);
    lemma_eval_not(cell_at(c.is_padding_tx, 0), t, challenges, r);
    assert forall|i: int| 0 <= i < before_padding_parts.len() implies is_bit(
        eval(#[trigger] before_padding_parts[i], t, challenges, r),
    ) by {}
    lemma_eval_and(before_padding_parts, t, challenges, r);
    let on = eval(selector, t, challenges, r) != 0;
    let genuine = on && v.tag == TxFieldTag::BlockNumber && !v.is_padding_tx;
    if genuine {
        let i = crate::tx_circuit::aggregates::lemma_block_row(b, max_txs, max_calldata, n, r);
        let count = b.txs.len() as int;
        let txs = b.txs;
        crate::tx_circuit::complete::lemma_header_fields(b, i, 22);
        crate::tx_circuit::rows::lemma_view_header(b, max_txs, i, 22);
        vstd::arithmetic::div_mod::lemma_small_mod((r + 1) as nat, n as nat);
        if i + 1 < max_txs {
            crate::tx_circuit::rows::lemma_view_header(b, max_txs, i + 1, 0);
            crate::tx_circuit::signing::lemma_header_flag(b, i + 1, 0);
            assert(1 + (i + 1) * TX_LEN + 0 == r + 1) by (nonlinear_arith)
                requires
                    r == 1 + i * TX_LEN + 22,
            ;
        } else {
            assert(r == max_txs * TX_LEN) by (nonlinear_arith)
                requires
                    r == 1 + i * TX_LEN + 22,
                    i == max_txs - 1,
            ;
            crate::tx_circuit::signing::lemma_calldata_flag(b, max_txs, max_calldata, r + 1);
        }
        if eval(before_padding, t, challenges, r) != 0 {
            assert(eval(before_padding_parts[2], t, challenges, r) == 1);
            assert(i == count - 1);
            lemma_counted_so_far(txs, i, count as nat);
        }
        crate::tx_circuit::queue::lemma_same_block(c, b, max_txs, max_calldata, end, challenges, i);
        lemma_eval_not(same, t, challenges, r);
        assert forall|i: int| 0 <= i < block_ends_parts.len() implies is_bit(
            eval(#[trigger] block_ends_parts[i], t, challenges, r),
        ) by {}
        lemma_eval_and(block_ends_parts, t, challenges, r);
        if eval(block_ends, t, challenges, r) != 0 {
            assert(eval(block_ends_parts[2], t, challenges, r) == 1);
            assert(v.next_block_num != v.cur_block_num);
            assert forall|j: int| i < j < count implies (#[trigger] txs[j]).block_number
                != txs[i].block_number by {
                assert(txs[i].block_number <= txs[i + 1].block_number);
                if i + 1 < j {
                    assert(txs[i + 1].block_number <= txs[j].block_number);
                }
            }
            lemma_count_stops(txs, i, count as nat);
        }
    } else if on {
        if v.tag != TxFieldTag::BlockNumber {
            crate::semantics::lemma_eval_and_zero(block_ends_parts, 0, t, challenges, r);
            assert(eval(before_padding_parts[0], t, challenges, r) != 1);
        } else {
            crate::semantics::lemma_eval_and_zero(block_ends_parts, 1, t, challenges, r);
            assert(eval(before_padding_parts[1], t, challenges, r) != 1);
        }
    }
    let tx_id = cell_at(c.tx_table.tx_id, 0);
    let cum = cell_at(c.cum_num_txs, 0);
    lemma_equality(selector, before_padding, tx_id, cum, t, challenges, r);
    lemma_equality(selector, block_ends, tx_id, cum, t, challenges, r);
    let gate = last_tx_id(c);
    assert(gate.len() == 2);
    assert forall|k: int| 0 <= k < gate.len() implies eval(#[trigger] gate[k].1, t, challenges, r)
        == 0 by {
        if k == 0 {
        } else {
        }
    }
}

/// The sequence number of a transaction is at most the number of the
/// transactions up to and including its block: the table satisfies
/// `tx_id_bound`.
pub proof fn theorem_tx_id_bound(
    c: &TxCircuitConfig,
    b: Batch,
    max_txs: nat,
    max_calldata: nat,
    end: nat,
    challenges: Seq<int>,
    r: int,
)
    requires
        valid(c, b, max_txs, max_calldata),
        field_has_inverses(),
        sorted_by_block(b.txs),
        0 <= r < table(c, b, max_txs, max_calldata, end).len(),
    ensures
        polys_hold(tx_id_bound(c), table(c, b, max_txs, max_calldata, end), challenges, r),
{
    let t = table(c, b, max_txs, max_calldata, end);
    lemma_table_size(c, b, max_txs, max_calldata, end);
    let n = t.len() as int;
    vstd::arithmetic::div_mod::lemma_small_mod(r as nat, n as nat);
    let v = wrapped_view(b, max_txs, max_calldata, n, r);
    lemma_stored(c, b, max_txs, max_calldata, end, challenges, r);
    lemma_row_kinds(c, b, max_txs, max_calldata, end, challenges, r, 0);
    lemma_row_kind(c, b, max_txs, max_calldata, end, challenges, r, 0, TxFieldTag::Null);
    lemma_meta_cells(c, b, max_txs, max_calldata, end, challenges, r, 0);
    lemma_compared_cells(c, b, max_txs, max_calldata, end, challenges, r);
    vstd::arithmetic::div_mod::lemma_small_mod(0, modulus());
    vstd::arithmetic::div_mod::lemma_small_mod(1, modulus());
    let parts = seq![cell_at(c.tx_table.q_enable, 0), not_expr(cell_at(c.is_padding_tx, 0))];
    let selector = and_expr(parts);
    lemma_eval_not(cell_at(c.is_padding_tx, 0), t, challenges, r);
    assert forall|i: int| 0 <= i < parts.len() implies is_bit(
        eval(#[trigger] parts[i], t, challenges, r),
    ) by {}
    lemma_eval_and(parts, t, challenges, r);
    let condition = is_tag(c, TxFieldTag::BlockNumber, 0);
    let below = cell_at(c.tx_id_vs_cum_num_txs.lt_chip.lt, 0);
    let equal = c.tx_id_vs_cum_num_txs.eq_chip.is_equal_expression;
    let terms = seq![below, equal];
    lemma_eval_lit(1, t, challenges, r);
    if eval(selector, t, challenges, r) != 0 && v.tag == TxFieldTag::BlockNumber {
        assert(eval(parts[0], t, challenges, r) == 1);
        assert(eval(parts[1], t, challenges, r) == 1);
        let i = crate::tx_circuit::aggregates::lemma_block_row(b, max_txs, max_calldata, n, r);
        let count = b.txs.len();
        crate::tx_circuit::complete::lemma_header_fields(b, i, 22);
        crate::tx_circuit::rows::lemma_view_header(b, max_txs, i, 22);
        lemma_counted_so_far(b.txs, i, (i + 1) as nat);
        lemma_count_grows(b.txs, b.txs[i].block_number, (i + 1) as nat, count);
        crate::tx_circuit::accounting::lemma_counts(b.txs, b.txs[i].block_number, count);
        reveal(valid);
        let tx_id = cell_at(c.tx_table.tx_id, 0);
        let cum = cell_at(c.cum_num_txs, 0);
        lemma_eval_minus(tx_id, cum, t, challenges, r);
        lemma_reduced(v.tx_id, v.cum_num_txs);
        let x = fsub(v.tx_id, v.cum_num_txs);
        vstd::arithmetic::div_mod::lemma_small_mod(x as nat, modulus());
        crate::constraint_builder::lemma_fsub_zero(v.tx_id, v.cum_num_txs);
        lemma_eval_cell(c.tx_id_vs_cum_num_txs.eq_chip.value_inv, 0, t, challenges, r);
        lemma_is_zero(
            minus(tx_id, cum),
            c.tx_id_vs_cum_num_txs.eq_chip.value_inv,
            0,
            x,
            t,
            challenges,
            r,
        );
        let k: int = if v.tx_id < v.cum_num_txs {
            0
        } else {
            1
        };
        assert forall|i: int| 0 <= i < terms.len() && i != k implies eval(
            #[trigger] terms[i],
            t,
            challenges,
            r,
        ) == 0 by {
            if i == 0 {
            } else {
            }
        }
        lemma_eval_sum(terms, k, t, challenges, r);
        assert(eval(terms[k], t, challenges, r) == 1);
    }
    lemma_equality(selector, condition, sum_expr(terms), lit(1), t, challenges, r);
    assert(tx_id_bound(c)[0].1 == times(
        selector,
        times(times(lit(1), condition), minus(sum_expr(terms), lit(1))),
    ));
}

} // verus!
