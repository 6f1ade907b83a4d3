//! The table of a batch satisfies the range checks of the circuit.

use crate::expr::cell_at;
use crate::expr::eval;
use crate::expr::minus;
use crate::expr::times;
use crate::field::modulus;
use crate::gadgets::byte_of;
use crate::gadgets::is_zero_expr;
use crate::gadgets::lt_diff;
use crate::gadgets::lt_ranges;
use crate::plonk::range_holds;
use crate::plonk::RangeLookup;
use crate::semantics::is_bit;
use crate::semantics::lemma_eval_and;
use crate::semantics::lemma_eval_minus;
use crate::semantics::lemma_eval_not;
use crate::semantics::lemma_eval_times;
use crate::semantics::lemma_reduced;
use crate::table::TxFieldTag;
use crate::tx_circuit::aggregates::sorted_by_block;
use crate::tx_circuit::batch::Batch;
use crate::tx_circuit::complete::field_has_inverses;
use crate::tx_circuit::complete::lemma_calldata_cells;
use crate::tx_circuit::complete::lemma_meta_cells;
use crate::tx_circuit::complete::lemma_row_kind;
use crate::tx_circuit::complete::lemma_table_size;
use crate::tx_circuit::complete::valid;
use crate::tx_circuit::complete::wrapped_view;
use crate::tx_circuit::configure::with_gadget_ranges;
use crate::tx_circuit::gates::block_num_step;
use crate::tx_circuit::gates::tx_id_step;
use crate::tx_circuit::gates::with_tx_ranges;
use crate::tx_circuit::queue::padded;
use crate::tx_circuit::synthesis::table;
use crate::tx_circuit::TxCircuitConfig;
use crate::util::and_expr;
use crate::util::not_expr;
use crate::witness::Transaction;
use vstd::prelude::*;

verus! {

/// The input of every range check is below its bound on every row of the
/// table.
pub open spec fn all_in_range(
    ranges: Seq<RangeLookup>,
    table: Seq<Seq<int>>,
    challenges: Seq<int>,
) -> bool {
    forall|k: int, r: int|
        0 <= k < ranges.len() && 0 <= r < table.len() ==> #[trigger] range_holds(
            ranges[k].input,
            ranges[k].table.bound as int,
            table,
            challenges,
            r,
        )
}

/// From a transaction to the next the block number rises by less than
/// 65536.
pub open spec fn steps_are_small(txs: Seq<Transaction>) -> bool {
    forall|i: int|
        0 <= i && i + 1 < txs.len() ==> (#[trigger] txs[i + 1]).block_number - txs[i].block_number
            < 65536
}

/// A byte of the difference of a comparison, where the row is enabled, is
/// below 256.
pub proof fn lemma_byte_in_range(
    c: &TxCircuitConfig,
    b: Batch,
    max_txs: nat,
    max_calldata: nat,
    end: nat,
    challenges: Seq<int>,
    r: int,
    i: int,
)
    requires
        valid(c, b, max_txs, max_calldata),
        0 <= r < table(c, b, max_txs, max_calldata, end).len(),
        0 <= i < 2,
    ensures
        eval(
            times(cell_at(c.tx_table.q_enable, 0), cell_at(c.tx_id_gt_prev_cnt.diff@[i], 0)),
            table(c, b, max_txs, max_calldata, end),
            challenges,
            r,
        ) < 256,
        eval(
            times(
                cell_at(c.tx_table.q_enable, 0),
                cell_at(c.tx_id_vs_cum_num_txs.lt_chip.diff@[i], 0),
            ),
            table(c, b, max_txs, max_calldata, end),
            challenges,
            r,
        ) < 256,
{
    let t = table(c, b, max_txs, max_calldata, end);
    let v = wrapped_view(b, max_txs, max_calldata, t.len() as int, r);
    let q_enable = cell_at(c.tx_table.q_enable, 0);
    lemma_row_kind(c, b, max_txs, max_calldata, end, challenges, r, 0, TxFieldTag::Null);
    crate::tx_circuit::counting::lemma_compared_cells(
        c,
        b,
        max_txs,
        max_calldata,
        end,
        challenges,
        r,
    );
    let lower = cell_at(c.tx_id_gt_prev_cnt.diff@[i], 0);
    let upper = cell_at(c.tx_id_vs_cum_num_txs.lt_chip.diff@[i], 0);
    lemma_eval_times(q_enable, lower, t, challenges, r);
    lemma_eval_times(q_enable, upper, t, challenges, r);
    crate::gadgets::lemma_pow256_positive(0);
    crate::gadgets::lemma_pow256_positive(1);
    let x = byte_of(
        lt_diff(v.cum_num_txs - v.num_txs, v.tx_id, 2) % 0x1_0000_0000_0000_0000int,
        i as nat,
    );
    let y = byte_of(lt_diff(v.tx_id, v.cum_num_txs, 2) % 0x1_0000_0000_0000_0000int, i as nat);
    assert(0 <= x < 256);
    assert(0 <= y < 256);
    vstd::arithmetic::div_mod::lemma_small_mod(x as nat, modulus());
    vstd::arithmetic::div_mod::lemma_small_mod(y as nat, modulus());
}

/// From the header of a transaction to the header of the next the block
/// number rises by less than 65536: the input of `block_num_step` is below
/// 65536 on each row of the table of a batch.
pub proof fn lemma_block_num_step(
    c: &TxCircuitConfig,
    b: Batch,
    max_txs: nat,
    max_calldata: nat,
    end: nat,
    challenges: Seq<int>,
    r: int,
)
    requires
        valid(c, b, max_txs, max_calldata),
        padded(b),
        sorted_by_block(b.txs),
        steps_are_small(b.txs),
        0 <= r < table(c, b, max_txs, max_calldata, end).len(),
    ensures
        eval(block_num_step(c), table(c, b, max_txs, max_calldata, end), challenges, r) < 65536,
{
    let t = table(c, b, max_txs, max_calldata, end);
    lemma_table_size(c, b, max_txs, max_calldata, end);
    let n = t.len() as int;
    vstd::arithmetic::div_mod::lemma_small_mod(r as nat, n as nat);
    let v = wrapped_view(b, max_txs, max_calldata, n, r);
    let w = wrapped_view(b, max_txs, max_calldata, n, r + 1);
    lemma_row_kind(c, b, max_txs, max_calldata, end, challenges, r, 1, TxFieldTag::Null);
    lemma_meta_cells(c, b, max_txs, max_calldata, end, challenges, r, 0);
    lemma_meta_cells(c, b, max_txs, max_calldata, end, challenges, r, 1);
    crate::tx_circuit::queue::lemma_queue_cells(c, b, max_txs, max_calldata, end, challenges, r, 0);
    vstd::arithmetic::div_mod::lemma_small_mod(0, modulus());
    vstd::arithmetic::div_mod::lemma_small_mod(1, modulus());
    let parts = seq![
        not_expr(cell_at(c.is_padding_tx, 1)),
        not_expr(cell_at(c.is_calldata, 1)),
        cell_at(c.is_tag_block_num, 0),
    ];
    let enable = and_expr(parts);
    lemma_eval_not(cell_at(c.is_padding_tx, 1), t, challenges, r);
    lemma_eval_not(cell_at(c.is_calldata, 1), t, challenges, r);
    assert forall|i: int| 0 <= i < parts.len() implies is_bit(
        eval(#[trigger] parts[i], t, challenges, r),
    ) by {}
    lemma_eval_and(parts, t, challenges, r);
    let step = minus(cell_at(c.block_num, 1), cell_at(c.block_num, 0));
    lemma_eval_times(enable, step, t, challenges, r);
    if eval(enable, t, challenges, r) != 0 {
        assert(eval(parts[0], t, challenges, r) == 1);
        assert(eval(parts[1], t, challenges, r) == 1);
        assert(eval(parts[2], t, challenges, r) == 1);
        crate::tx_circuit::rows::lemma_view_first(b, max_txs);
        reveal(valid);
        let (i, j) = crate::tx_circuit::stored::lemma_header_row(b, max_txs, max_calldata, r);
        assert(j == 22);
        crate::tx_circuit::queue::lemma_header_end(b, max_txs, max_calldata, n, i);
        vstd::arithmetic::div_mod::lemma_small_mod((r + 1) as nat, n as nat);
        crate::tx_circuit::rows::lemma_view_header(b, max_txs, i + 1, 0);
        assert(1 + (i + 1) * crate::tx_circuit::TX_LEN + 0 == r + 1) by (nonlinear_arith)
            requires
                r == 1 + i * crate::tx_circuit::TX_LEN + 22,
        ;
        crate::tx_circuit::signing::lemma_header_flag(b, i + 1, 0);
        crate::tx_circuit::signing::lemma_header_flag(b, i, 22);
        crate::tx_circuit::rows::lemma_view_header(b, max_txs, i, 22);
        let k = crate::tx_circuit::aggregates::lemma_block_row(b, max_txs, max_calldata, n, r);
        assert(k == i);
        assert(b.all()[i] == b.txs[i]);
        assert(b.txs[i].block_number <= b.txs[i + 1].block_number);
        assert(b.txs[i + 1].block_number - b.txs[i].block_number < 65536);
        lemma_eval_minus(cell_at(c.block_num, 1), cell_at(c.block_num, 0), t, challenges, r);
        lemma_reduced(w.cur_block_num, v.cur_block_num);
        vstd::arithmetic::div_mod::lemma_small_mod(
            (w.cur_block_num - v.cur_block_num) as nat,
            modulus(),
        );
    }
}

/// From a row of calldata to the next, where that belongs to a transaction,
/// the sequence number rises by less than 65536: the input of `tx_id_step`
/// is below 65536 on each row of the table of a batch with fewer than 65536
/// headers.
pub proof fn lemma_tx_id_step(
    c: &TxCircuitConfig,
    b: Batch,
    max_txs: nat,
    max_calldata: nat,
    end: nat,
    challenges: Seq<int>,
    r: int,
)
    requires
        valid(c, b, max_txs, max_calldata),
        field_has_inverses(),
        max_txs < 65536,
        0 <= r < table(c, b, max_txs, max_calldata, end).len(),
    ensures
        eval(tx_id_step(c), table(c, b, max_txs, max_calldata, end), challenges, r) < 65536,
{
    let t = table(c, b, max_txs, max_calldata, end);
    lemma_table_size(c, b, max_txs, max_calldata, end);
    let n = t.len() as int;
    vstd::arithmetic::div_mod::lemma_small_mod(r as nat, n as nat);
    let v = wrapped_view(b, max_txs, max_calldata, n, r);
    let w = wrapped_view(b, max_txs, max_calldata, n, r + 1);
    lemma_row_kind(c, b, max_txs, max_calldata, end, challenges, r, 0, TxFieldTag::Null);
    lemma_row_kind(c, b, max_txs, max_calldata, end, challenges, r, 1, TxFieldTag::Null);
    lemma_calldata_cells(c, b, max_txs, max_calldata, end, challenges, r, 1);
    vstd::arithmetic::div_mod::lemma_small_mod(0, modulus());
    let no_next = is_zero_expr(cell_at(c.tx_id_is_zero.value, 1), c.tx_id_is_zero.value_inv, 1);
    let parts = seq![
        cell_at(c.tx_table.q_enable, 1),
        cell_at(c.is_calldata, 0),
        not_expr(no_next),
    ];
    let enable = and_expr(parts);
    lemma_eval_not(no_next, t, challenges, r);
    assert forall|i: int| 0 <= i < parts.len() implies is_bit(
        eval(#[trigger] parts[i], t, challenges, r),
    ) by {}
    lemma_eval_and(parts, t, challenges, r);
    let step = minus(cell_at(c.tx_table.tx_id, 1), cell_at(c.tx_table.tx_id, 0));
    lemma_eval_times(enable, step, t, challenges, r);
    if eval(enable, t, challenges, r) != 0 {
        assert(eval(parts[0], t, challenges, r) == 1);
        assert(eval(parts[1], t, challenges, r) == 1);
        assert(eval(parts[2], t, challenges, r) == 1);
        reveal(valid);
        crate::tx_circuit::gadgetry::lemma_next_tx_id(b, max_txs, max_calldata, n, r);
        lemma_eval_minus(cell_at(c.tx_table.tx_id, 1), cell_at(c.tx_table.tx_id, 0), t, challenges, r);
        lemma_reduced(w.tx_id, v.tx_id);
        vstd::arithmetic::div_mod::lemma_small_mod(w.tx_id as nat, modulus());
        vstd::arithmetic::div_mod::lemma_small_mod((w.tx_id - v.tx_id) as nat, modulus());
    }
}

/// The input of every range check that the circuit adds is below its bound
/// on every row of the table of a batch with fewer than 65536 headers,
/// whose transactions come in the order of their blocks, the block number
/// rising by less than 65536 from one to the next.
pub proof fn theorem_ranges(
    ranges: Seq<RangeLookup>,
    c: &TxCircuitConfig,
    b: Batch,
    max_txs: nat,
    max_calldata: nat,
    end: nat,
    challenges: Seq<int>,
)
    requires
        valid(c, b, max_txs, max_calldata),
        field_has_inverses(),
        padded(b),
        sorted_by_block(b.txs),
        steps_are_small(b.txs),
        max_txs < 65536,
        c.u8_table.bound == 256,
        c.u16_table.bound == 65536,
        all_in_range(ranges, table(c, b, max_txs, max_calldata, end), challenges),
    ensures
        all_in_range(
            with_tx_ranges(with_gadget_ranges(ranges, c), c),
            table(c, b, max_txs, max_calldata, end),
            challenges,
        ),
{
    let t = table(c, b, max_txs, max_calldata, end);
    let all = with_tx_ranges(with_gadget_ranges(ranges, c), c);
    let q_enable = cell_at(c.tx_table.q_enable, 0);
    let lower = lt_ranges(q_enable, c.tx_id_gt_prev_cnt.diff@, c.u8_table, 2);
    let upper = lt_ranges(q_enable, c.tx_id_vs_cum_num_txs.lt_chip.diff@, c.u8_table, 2);
    let first = ranges.len() as int;
    assert(all.len() == first + 6);
    assert forall|k: int, r: int| 0 <= k < all.len() && 0 <= r < t.len() implies #[trigger] range_holds(
        all[k].input,
        all[k].table.bound as int,
        t,
        challenges,
        r,
    ) by {
        if k < first {
            assert(all[k] == ranges[k]);
            assert(range_holds(ranges[k].input, ranges[k].table.bound as int, t, challenges, r));
        } else if k < first + 2 {
            assert(all[k] == lower[k - first]);
            lemma_byte_in_range(c, b, max_txs, max_calldata, end, challenges, r, k - first);
        } else if k < first + 4 {
            assert(all[k] == upper[k - first - 2]);
            lemma_byte_in_range(c, b, max_txs, max_calldata, end, challenges, r, k - first - 2);
        } else if k == first + 4 {
            lemma_block_num_step(c, b, max_txs, max_calldata, end, challenges, r);
        } else {
            lemma_tx_id_step(c, b, max_txs, max_calldata, end, challenges, r);
        }
    }
}

} // verus!
