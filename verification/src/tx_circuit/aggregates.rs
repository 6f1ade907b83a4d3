//! The rows of the table of a batch find in the table of block aggregates
//! what they look up there.
//!
//! The table of block aggregates is written to columns of its own beside the
//! table of the batch. The row of the block number of a transaction looks
//! the number of transactions of its block and the number of transactions
//! up to its block up; where the next header is of another block, it also
//! looks the count of all transactions up. A row that looks nothing up reads
//! zeros, which the row after the table of block aggregates holds.

use crate::expr::cell;
use crate::expr::cell_at;
use crate::expr::eval;
use crate::expr::lit;
use crate::expr::Column;
use crate::field::finv_or_zero;
use crate::field::fred;
use crate::field::fsub;
use crate::field::modulus;
use crate::plonk::assigned;
use crate::plonk::lookup_holds;
use crate::plonk::pairs_match;
use crate::semantics::is_bit;
use crate::semantics::lemma_eval_and;
use crate::semantics::lemma_eval_lit;
use crate::semantics::lemma_eval_not;
use crate::semantics::lemma_eval_times;
use crate::table::BlockContextFieldTag;
use crate::tx_circuit::block_table::blocks_of;
use crate::tx_circuit::lookups::cum_num_txs_in_block;
use crate::tx_circuit::lookups::num_all_txs_in_block;
use crate::tx_circuit::lookups::num_txs_in_block;
use crate::util::and_expr;
use crate::util::not_expr;
use crate::plonk::extended;
use crate::plonk::zero_row;
use crate::semantics::lemma_eval_cell;
use crate::table::BlockTable;
use crate::tx_circuit::assign::row_cells;
use crate::tx_circuit::batch::Batch;
use crate::tx_circuit::block_table::entry_block;
use crate::tx_circuit::block_table::entry_tag;
use crate::tx_circuit::block_table::entry_value;
use crate::tx_circuit::block_table::with_entries;
use crate::table::TxFieldTag;
use crate::tx_circuit::accounting::count_in_block;
use crate::tx_circuit::accounting::count_up_to_block;
use crate::tx_circuit::accounting::num_all_txs_acc;
use crate::tx_circuit::block_table::last_in_block;
use crate::tx_circuit::complete::enabled;
use crate::tx_circuit::complete::field_has_inverses;
use crate::tx_circuit::complete::used;
use crate::tx_circuit::complete::wrapped_view;
use crate::tx_circuit::complete::valid;
use crate::tx_circuit::laws::fits;
use crate::tx_circuit::rows::lemma_table_len;
use crate::tx_circuit::rows::lemma_table_tail;
use crate::tx_circuit::rows::lemma_table_view;
use crate::tx_circuit::rows::view_at;
use crate::tx_circuit::synthesis::table;
use crate::tx_circuit::TxCircuitConfig;
use crate::tx_circuit::NUM_TABLE_COLUMNS;
use crate::tx_circuit::TX_LEN;
use crate::witness::Transaction;
use vstd::prelude::*;

verus! {

/// Every row of the table has `width` cells.
pub open spec fn rows_are_wide(t: Seq<Seq<int>>, width: nat) -> bool {
    forall|r: int| 0 <= r < t.len() ==> (#[trigger] t[r]).len() == width
}

/// The first `n` entries of the table of block aggregates, written to a
/// table that has the rows for them, stand on its first `n` rows, and no
/// other cell has changed.
pub proof fn lemma_entries(
    t: Seq<Seq<int>>,
    width: nat,
    bt: BlockTable,
    txs: Seq<Transaction>,
    start: int,
    blocks: Seq<u64>,
    n: nat,
)
    requires
        n <= t.len(),
        rows_are_wide(t, width),
        bt.tag.index < bt.index.index < bt.value.index < width,
    ensures
        with_entries(t, width, bt, txs, start, blocks, n).len() == t.len(),
        rows_are_wide(with_entries(t, width, bt, txs, start, blocks, n), width),
        forall|r: int, col: int|
            0 <= r < t.len() && 0 <= col < width ==> #[trigger] with_entries(
                t,
                width,
                bt,
                txs,
                start,
                blocks,
                n,
            )[r][col] == (if r < n && col == bt.tag.index {
                entry_tag(r).spec_index() as int
            } else if r < n && col == bt.index.index {
                entry_block(blocks, r)
            } else if r < n && col == bt.value.index {
                entry_value(txs, start, blocks, r)
            } else {
                t[r][col]
            }),
    decreases n,
{
    if n > 0 {
        let row = (n - 1) as nat;
        lemma_entries(t, width, bt, txs, start, blocks, row);
        let before = with_entries(t, width, bt, txs, start, blocks, row);
        let a1 = assigned(
            before,
            width,
            row,
            bt.tag.index as int,
            entry_tag(row as int).spec_index() as int,
        );
        assert(extended(before, width, row + 1) =~= before);
        let a2 = assigned(a1, width, row, bt.index.index as int, entry_block(blocks, row as int));
        assert(extended(a1, width, row + 1) =~= a1);
        let a3 = assigned(
            a2,
            width,
            row,
            bt.value.index as int,
            entry_value(txs, start, blocks, row as int),
        );
        assert(extended(a2, width, row + 1) =~= a2);
        assert(a3 == with_entries(t, width, bt, txs, start, blocks, n));
        assert forall|r: int| 0 <= r < a3.len() implies (#[trigger] a3[r]).len() == width by {
            assert(before[r].len() == width);
        }
    }
}

/// A row that stands for something leaves the columns of the tables beside
/// the transaction table alone.
pub proof fn lemma_row_cells_beside(c: &TxCircuitConfig, base: Seq<int>, v: crate::tx_circuit::assign::RowView, col: int)
    requires
        c.well_formed(),
        base.len() == c.width(),
        c.first_column() + 5 <= col < c.first_column() + NUM_TABLE_COLUMNS,
    ensures
        row_cells(c, base, v)[col] == base[col],
{
    reveal(row_cells);
    let b1 = crate::tx_circuit::assign::row_cells_1(c, base, v);
    crate::tx_circuit::assign::lemma_row_cells_1(c, base, v);
    let b2 = crate::tx_circuit::assign::row_cells_2(c, b1, v);
    crate::tx_circuit::assign::lemma_row_cells_2(c, b1, v);
    let b3 = crate::tx_circuit::assign::row_cells_3(c, b2, v);
    crate::tx_circuit::assign::lemma_row_cells_3(c, b2, v);
    let b4 = crate::tx_circuit::assign::row_cells_4(c, b3, v);
    crate::tx_circuit::assign::lemma_row_cells_4(c, b3, v);
    let b5 = crate::tx_circuit::assign::row_cells_5(c, b4, v);
    crate::tx_circuit::assign::lemma_row_cells_5(c, b4, v);
    let b6 = crate::tx_circuit::assign::row_cells_6(c, b5, v);
    crate::tx_circuit::assign::lemma_row_cells_6(c, b5, v);
    let b7 = crate::tx_circuit::assign::row_cells_7(c, b6, v);
    crate::tx_circuit::assign::lemma_row_cells_7(c, b6, v);
    let b8 = crate::tx_circuit::assign::row_cells_8(c, b7, v);
    crate::tx_circuit::assign::lemma_row_cells_8(c, b7, v);
    let b9 = crate::tx_circuit::assign::row_cells_9(c, b8, v);
    crate::tx_circuit::assign::lemma_row_cells_9(c, b8, v);
    assert(b1[col] == base[col]);
    assert(b2[col] == b1[col]);
    assert(b3[col] == b2[col]);
    assert(b4[col] == b3[col]);
    assert(b5[col] == b4[col]);
    assert(b6[col] == b5[col]);
    assert(b7[col] == b6[col]);
    assert(b8[col] == b7[col]);
    assert(b9[col] == b8[col]);
}

/// The table of a batch with the table of block aggregates for the blocks
/// `blocks` written beside it.
pub open spec fn whole(
    c: &TxCircuitConfig,
    b: Batch,
    max_txs: nat,
    max_calldata: nat,
    end: nat,
    blocks: Seq<u64>,
) -> Seq<Seq<int>> {
    with_entries(
        table(c, b, max_txs, max_calldata, end),
        c.width(),
        c.block_table,
        b.txs,
        b.start,
        blocks,
        (3 * (blocks.len() + 1)) as nat,
    )
}

/// The table of a batch has rows of the width of the circuit, and holds
/// zeros in the columns of the table of block aggregates.
pub proof fn lemma_beside(
    c: &TxCircuitConfig,
    b: Batch,
    max_txs: nat,
    max_calldata: nat,
    end: nat,
)
    requires
        fits(c, b, max_txs, max_calldata),
    ensures
        rows_are_wide(table(c, b, max_txs, max_calldata, end), c.width()),
        forall|r: int, col: int|
            0 <= r < table(c, b, max_txs, max_calldata, end).len() && c.first_column() + 5 <= col
                < c.first_column() + 8 ==> #[trigger] table(c, b, max_txs, max_calldata, end)[r][col]
                == 0,
{
    let t = table(c, b, max_txs, max_calldata, end);
    lemma_table_len(c, b, max_txs, max_calldata, end);
    assert forall|r: int| 0 <= r < t.len() implies (#[trigger] t[r]).len() == c.width() by {
        if r < 1 + max_txs * TX_LEN + max_calldata {
            lemma_table_view(c, b, max_txs, max_calldata, end, r);
        } else {
            lemma_table_tail(c, b, max_txs, max_calldata, end, r);
        }
    }
    assert forall|r: int, col: int|
        0 <= r < t.len() && c.first_column() + 5 <= col < c.first_column() + 8 implies #[trigger] t[r][col]
        == 0 by {
        if r < 1 + max_txs * TX_LEN + max_calldata {
            lemma_table_view(c, b, max_txs, max_calldata, end, r);
            lemma_row_cells_beside(c, zero_row(c.width()), view_at(b, max_txs, r), col);
        } else {
            lemma_table_tail(c, b, max_txs, max_calldata, end, r);
        }
    }
}

/// With the table of block aggregates beside it, the table of a batch has
/// as many rows as without, the cells of the other columns are what they
/// were, and the rows after the block aggregates hold zeros in their
/// columns.
pub proof fn lemma_whole(
    c: &TxCircuitConfig,
    b: Batch,
    max_txs: nat,
    max_calldata: nat,
    end: nat,
    blocks: Seq<u64>,
)
    requires
        fits(c, b, max_txs, max_calldata),
        3 * (blocks.len() + 1) <= table(c, b, max_txs, max_calldata, end).len(),
    ensures
        whole(c, b, max_txs, max_calldata, end, blocks).len() == table(
            c,
            b,
            max_txs,
            max_calldata,
            end,
        ).len(),
        rows_are_wide(whole(c, b, max_txs, max_calldata, end, blocks), c.width()),
        forall|r: int, col: int|
            0 <= r < table(c, b, max_txs, max_calldata, end).len() && 0 <= col < c.width()
                ==> #[trigger] whole(c, b, max_txs, max_calldata, end, blocks)[r][col] == (if r < 3
                * (blocks.len() + 1) && col == c.block_table.tag.index {
                entry_tag(r).spec_index() as int
            } else if r < 3 * (blocks.len() + 1) && col == c.block_table.index.index {
                entry_block(blocks, r)
            } else if r < 3 * (blocks.len() + 1) && col == c.block_table.value.index {
                entry_value(b.txs, b.start, blocks, r)
            } else {
                table(c, b, max_txs, max_calldata, end)[r][col]
            }),
{
    lemma_beside(c, b, max_txs, max_calldata, end);
    lemma_entries(
        table(c, b, max_txs, max_calldata, end),
        c.width(),
        c.block_table,
        b.txs,
        b.start,
        blocks,
        (3 * (blocks.len() + 1)) as nat,
    );
}

/// A query of a column that is none of the table of block aggregates
/// evaluates to the same with that table beside the table of the batch as
/// without.
pub proof fn lemma_same_cell(
    c: &TxCircuitConfig,
    b: Batch,
    max_txs: nat,
    max_calldata: nat,
    end: nat,
    blocks: Seq<u64>,
    challenges: Seq<int>,
    r: int,
    rotation: int,
    column: Column,
)
    requires
        fits(c, b, max_txs, max_calldata),
        3 * (blocks.len() + 1) <= table(c, b, max_txs, max_calldata, end).len(),
        -1000 <= rotation <= 1000,
        column.index < c.first_column() + 5 || c.first_column() + 8 <= column.index,
    ensures
        eval(
            cell_at(column, rotation),
            whole(c, b, max_txs, max_calldata, end, blocks),
            challenges,
            r,
        ) == eval(cell_at(column, rotation), table(c, b, max_txs, max_calldata, end), challenges, r),
{
    let t = table(c, b, max_txs, max_calldata, end);
    let w = whole(c, b, max_txs, max_calldata, end, blocks);
    lemma_whole(c, b, max_txs, max_calldata, end, blocks);
    lemma_beside(c, b, max_txs, max_calldata, end);
    lemma_eval_cell(column, rotation, t, challenges, r);
    lemma_eval_cell(column, rotation, w, challenges, r);
    let at = (r + rotation) % (t.len() as int);
    if t.len() > 0 {
        assert(0 <= at < t.len());
        assert(t[at].len() == c.width());
        assert(w[at].len() == c.width());
        if column.index < c.width() {
            assert(w[at][column.index as int] == t[at][column.index as int]);
        }
    }
}

/// The transactions are in the order of their blocks.
pub open spec fn sorted_by_block(txs: Seq<Transaction>) -> bool {
    forall|i: int, j: int|
        0 <= i < j < txs.len() ==> (#[trigger] txs[i]).block_number <= (#[trigger] txs[j]).block_number
}

/// A transaction that no transaction of its block follows is the last of
/// its block.
pub proof fn lemma_last_in_block(txs: Seq<Transaction>, i: int, n: nat)
    requires
        0 <= i < n <= txs.len(),
        forall|j: int| i < j < n ==> (#[trigger] txs[j]).block_number != txs[i].block_number,
    ensures
        last_in_block(txs, txs[i].block_number, n) == i,
    decreases n,
{
    if n - 1 > i {
        assert(txs[n - 1].block_number != txs[i].block_number);
        lemma_last_in_block(txs, i, (n - 1) as nat);
    }
}

/// A row of the room for calldata carries no block number.
pub proof fn lemma_calldata_has_no_block(b: Batch, max_txs: nat, max_calldata: nat, r: int)
    requires
        b.txs.len() <= max_txs,
        max_txs * TX_LEN < r < used(max_txs, max_calldata),
    ensures
        view_at(b, max_txs, r).cur_block_num == 0,
{
    let p = r - 1 - max_txs * TX_LEN;
    if p < b.calldata_len() {
        reveal(crate::tx_circuit::batch::calldata_row_view);
        crate::tx_circuit::rows::lemma_owner(b.txs, b.txs.len(), p);
        let o = crate::tx_circuit::rows::owner(b.txs, b.txs.len(), p);
        crate::tx_circuit::rows::lemma_view_calldata(b, max_txs, o.0, o.1);
    } else {
        crate::tx_circuit::rows::lemma_view_empty(b, max_txs, r);
    }
}

/// A row of the kind `BlockNumber` that is not of the padding is the last
/// row of the header of a transaction: it carries the block number of the
/// transaction and the counts for its block, and the block number that it
/// announces for the next row is the one that the next row carries.
pub proof fn lemma_block_row(b: Batch, max_txs: nat, max_calldata: nat, n: int, r: int) -> (i: int)
    requires
        b.all().len() == max_txs,
        max_txs >= 1,
        b.txs.len() <= max_txs,
        b.calldata_len() <= max_calldata,
        max_calldata >= 1,
        n >= used(max_txs, max_calldata),
        0 <= r < used(max_txs, max_calldata),
        view_at(b, max_txs, r).tag == TxFieldTag::BlockNumber,
        !view_at(b, max_txs, r).is_padding_tx,
    ensures
        0 <= i < b.txs.len(),
        r == 1 + i * TX_LEN + 22,
        ({
            let v = view_at(b, max_txs, r);
            let w = wrapped_view(b, max_txs, max_calldata, n, r + 1);
            let block = b.txs[i].block_number;
            &&& v.value == block
            &&& v.cur_block_num == block
            &&& v.num_txs == count_in_block(b.txs, block, b.txs.len())
            &&& v.cum_num_txs == count_up_to_block(b.txs, block, b.txs.len())
            &&& v.num_all_txs_acc == num_all_txs_acc(b.txs, b.start, i as nat)
            &&& w.cur_block_num == v.next_block_num
            &&& 0 <= v.next_block_num <= u64::MAX
            &&& i + 1 < b.txs.len() ==> v.next_block_num == b.txs[i + 1].block_number
        }),
{
    let hl = max_txs * TX_LEN;
    crate::tx_circuit::rows::lemma_view_first(b, max_txs);
    if r > hl {
        crate::tx_circuit::complete::lemma_calldata_kind(b, max_txs, max_calldata, r);
    }
    let (i, j) = crate::tx_circuit::rows::lemma_header_place(max_txs, r);
    crate::tx_circuit::rows::lemma_view_header(b, max_txs, i, j);
    crate::tx_circuit::complete::lemma_header_fields(b, i, j);
    assert(j == 22);
    reveal(Batch::header_view);
    reveal(crate::tx_circuit::batch::field_view);
    assert(i < b.txs.len());
    assert(b.all()[i] == b.txs[i]);
    vstd::arithmetic::div_mod::lemma_small_mod((r + 1) as nat, n as nat);
    if i + 1 < max_txs {
        crate::tx_circuit::rows::lemma_view_header(b, max_txs, i + 1, 0);
        assert(1 + (i + 1) * TX_LEN + 0 == r + 1) by (nonlinear_arith)
            requires
                r == 1 + i * TX_LEN + 22,
        ;
        if i + 1 < b.txs.len() {
            assert(b.all()[i + 1] == b.txs[i + 1]);
        } else {
            assert(b.all()[i + 1] == b.padding[0]);
        }
    } else {
        assert(r == hl) by (nonlinear_arith)
            requires
                r == 1 + i * TX_LEN + 22,
                i == max_txs - 1,
                hl == max_txs * TX_LEN,
        ;
        lemma_calldata_has_no_block(b, max_txs, max_calldata, r + 1);
    }
    i
}

/// The stored boolean `is_tag_block_num` and the inverse that the test for
/// a change of block rests on, as queries evaluate to them on the row that
/// lies `r + rotation` rows after the first.
pub proof fn lemma_block_cells(
    c: &TxCircuitConfig,
    b: Batch,
    max_txs: nat,
    max_calldata: nat,
    end: nat,
    challenges: Seq<int>,
    r: int,
    rotation: int,
)
    requires
        valid(c, b, max_txs, max_calldata),
        -1000 <= rotation <= 1000,
    ensures
        ({
            let t = table(c, b, max_txs, max_calldata, end);
            let v = wrapped_view(b, max_txs, max_calldata, t.len() as int, r + rotation);
            &&& eval(cell_at(c.is_tag_block_num, rotation), t, challenges, r) == (if v.tag
                == TxFieldTag::BlockNumber {
                1int
            } else {
                0int
            })
            &&& eval(cell_at(c.block_num_unchanged.value_inv, rotation), t, challenges, r) == fred(
                finv_or_zero(fsub(v.next_block_num, v.cur_block_num)),
            )
        }),
{
    reveal(valid);
    let t = table(c, b, max_txs, max_calldata, end);
    lemma_table_len(c, b, max_txs, max_calldata, end);
    let n = t.len() as int;
    let at = (r + rotation) % n;
    lemma_eval_cell(c.is_tag_block_num, rotation, t, challenges, r);
    lemma_eval_cell(c.block_num_unchanged.value_inv, rotation, t, challenges, r);
    if at < used(max_txs, max_calldata) {
        crate::tx_circuit::rows::lemma_table_cells(c, b, max_txs, max_calldata, end, at);
    } else {
        lemma_table_tail(c, b, max_txs, max_calldata, end, at);
    }
    crate::tx_circuit::rows::lemma_view_first(b, max_txs);
}

/// The table of block aggregates has room beside the table of the batch,
/// and a row after it.
pub open spec fn has_room(
    c: &TxCircuitConfig,
    b: Batch,
    max_txs: nat,
    max_calldata: nat,
    end: nat,
    blocks: Seq<u64>,
) -> bool {
    3 * (blocks.len() + 1) < table(c, b, max_txs, max_calldata, end).len()
}

/// What the lookups into the table of block aggregates read on a row of the
/// table of the batch, with the block aggregates beside it.
pub proof fn lemma_block_reads(
    c: &TxCircuitConfig,
    b: Batch,
    max_txs: nat,
    max_calldata: nat,
    end: nat,
    blocks: Seq<u64>,
    challenges: Seq<int>,
    r: int,
)
    requires
        valid(c, b, max_txs, max_calldata),
        field_has_inverses(),
        has_room(c, b, max_txs, max_calldata, end, blocks),
    ensures
        ({
            let t = whole(c, b, max_txs, max_calldata, end, blocks);
            let n = table(c, b, max_txs, max_calldata, end).len() as int;
            let v = wrapped_view(b, max_txs, max_calldata, n, r);
            &&& eval(cell_at(c.tx_table.q_enable, 0), t, challenges, r) == (if enabled(
                max_txs,
                max_calldata,
                n,
                r,
            ) {
                1int
            } else {
                0int
            })
            &&& eval(cell_at(c.is_tag_block_num, 0), t, challenges, r) == (if v.tag
                == TxFieldTag::BlockNumber {
                1int
            } else {
                0int
            })
            &&& eval(cell_at(c.is_padding_tx, 0), t, challenges, r) == (if v.is_padding_tx {
                1int
            } else {
                0int
            })
            &&& eval(cell_at(c.tx_table.value, 0), t, challenges, r) == fred(v.value)
            &&& eval(cell_at(c.num_txs, 0), t, challenges, r) == fred(v.num_txs)
            &&& eval(cell_at(c.cum_num_txs, 0), t, challenges, r) == fred(v.cum_num_txs)
            &&& eval(cell_at(c.num_all_txs_acc, 0), t, challenges, r) == fred(v.num_all_txs_acc)
        }),
{
    reveal(valid);
    lemma_same_cell(c, b, max_txs, max_calldata, end, blocks, challenges, r, 0, c.tx_table.q_enable);
    lemma_same_cell(c, b, max_txs, max_calldata, end, blocks, challenges, r, 0, c.is_tag_block_num);
    lemma_same_cell(c, b, max_txs, max_calldata, end, blocks, challenges, r, 0, c.is_padding_tx);
    lemma_same_cell(c, b, max_txs, max_calldata, end, blocks, challenges, r, 0, c.tx_table.value);
    lemma_same_cell(c, b, max_txs, max_calldata, end, blocks, challenges, r, 0, c.num_txs);
    lemma_same_cell(c, b, max_txs, max_calldata, end, blocks, challenges, r, 0, c.cum_num_txs);
    lemma_same_cell(c, b, max_txs, max_calldata, end, blocks, challenges, r, 0, c.num_all_txs_acc);
    crate::tx_circuit::complete::lemma_row_kind(
        c,
        b,
        max_txs,
        max_calldata,
        end,
        challenges,
        r,
        0,
        TxFieldTag::Null,
    );
    crate::tx_circuit::complete::lemma_meta_cells(c, b, max_txs, max_calldata, end, challenges, r, 0);
    crate::tx_circuit::complete::lemma_calldata_cells(
        c,
        b,
        max_txs,
        max_calldata,
        end,
        challenges,
        r,
        0,
    );
    lemma_block_cells(c, b, max_txs, max_calldata, end, challenges, r, 0);
    vstd::arithmetic::div_mod::lemma_small_mod(1, modulus());
}

/// The entries of the table of block aggregates, as queries evaluate to
/// them on the row `at`: those of a row of the table, and zeros on the rows
/// after it.
pub proof fn lemma_entry_reads(
    c: &TxCircuitConfig,
    b: Batch,
    max_txs: nat,
    max_calldata: nat,
    end: nat,
    blocks: Seq<u64>,
    challenges: Seq<int>,
    at: int,
)
    requires
        valid(c, b, max_txs, max_calldata),
        has_room(c, b, max_txs, max_calldata, end, blocks),
        0 <= at <= 3 * (blocks.len() + 1),
    ensures
        ({
            let t = whole(c, b, max_txs, max_calldata, end, blocks);
            let inside = at < 3 * (blocks.len() + 1);
            &&& at < t.len()
            &&& eval(cell_at(c.block_table.tag, 0), t, challenges, at) == (if inside {
                entry_tag(at).spec_index() as int
            } else {
                0int
            })
            &&& eval(cell_at(c.block_table.index, 0), t, challenges, at) == (if inside {
                fred(entry_block(blocks, at))
            } else {
                0int
            })
            &&& eval(cell_at(c.block_table.value, 0), t, challenges, at) == (if inside {
                fred(entry_value(b.txs, b.start, blocks, at))
            } else {
                0int
            })
        }),
{
    reveal(valid);
    let t = whole(c, b, max_txs, max_calldata, end, blocks);
    lemma_whole(c, b, max_txs, max_calldata, end, blocks);
    lemma_beside(c, b, max_txs, max_calldata, end);
    vstd::arithmetic::div_mod::lemma_small_mod(at as nat, t.len());
    lemma_eval_cell(c.block_table.tag, 0, t, challenges, at);
    lemma_eval_cell(c.block_table.index, 0, t, challenges, at);
    lemma_eval_cell(c.block_table.value, 0, t, challenges, at);
    assert(t[at].len() == c.width());
    let plain = table(c, b, max_txs, max_calldata, end);
    assert(t[at][c.block_table.tag.index as int] == (if at < 3 * (blocks.len() + 1) {
        entry_tag(at).spec_index() as int
    } else {
        plain[at][c.block_table.tag.index as int]
    }));
    assert(t[at][c.block_table.index.index as int] == (if at < 3 * (blocks.len() + 1) {
        entry_block(blocks, at)
    } else {
        plain[at][c.block_table.index.index as int]
    }));
    assert(t[at][c.block_table.value.index as int] == (if at < 3 * (blocks.len() + 1) {
        entry_value(b.txs, b.start, blocks, at)
    } else {
        plain[at][c.block_table.value.index as int]
    }));
    vstd::arithmetic::div_mod::lemma_small_mod(entry_tag(at).spec_index(), modulus());
}

/// The block of a transaction is listed among the blocks of the batch.
pub proof fn lemma_block_listed(txs: Seq<Transaction>, blocks: Seq<u64>, i: int) -> (k: int)
    requires
        blocks_of(txs, blocks),
        0 <= i < txs.len(),
    ensures
        0 <= k < blocks.len(),
        blocks[k] == txs[i].block_number,
{
    assert(blocks.contains(txs[i].block_number));
    choose|k: int| 0 <= k < blocks.len() && blocks[k] == txs[i].block_number
}

/// The row of the block number of a transaction finds the number of the
/// transactions of its block in the table
/// of block aggregates: each row of the table of the batch finds there what
/// `num_txs_in_block` has it look up.
pub proof fn theorem_num_txs_in_block_found(
    c: &TxCircuitConfig,
    b: Batch,
    max_txs: nat,
    max_calldata: nat,
    end: nat,
    blocks: Seq<u64>,
    challenges: Seq<int>,
    r: int,
)
    requires
        valid(c, b, max_txs, max_calldata),
        field_has_inverses(),
        has_room(c, b, max_txs, max_calldata, end, blocks),
        blocks_of(b.txs, blocks),
        0 <= r < table(c, b, max_txs, max_calldata, end).len(),
    ensures
        lookup_holds(
            num_txs_in_block(c),
            whole(c, b, max_txs, max_calldata, end, blocks),
            challenges,
            r,
        ),
{
    let t = whole(c, b, max_txs, max_calldata, end, blocks);
    crate::tx_circuit::complete::lemma_table_size(c, b, max_txs, max_calldata, end);
    let n = table(c, b, max_txs, max_calldata, end).len() as int;
    vstd::arithmetic::div_mod::lemma_small_mod(r as nat, n as nat);
    let v = wrapped_view(b, max_txs, max_calldata, n, r);
    lemma_block_reads(c, b, max_txs, max_calldata, end, blocks, challenges, r);
    let is_block = cell_at(c.is_tag_block_num, 0);
    let is_padding = cell_at(c.is_padding_tx, 0);
    let q_enable = cell_at(c.tx_table.q_enable, 0);
    let parts = seq![is_block, not_expr(is_padding), q_enable];
    let enable = and_expr(parts);
    lemma_eval_not(is_padding, t, challenges, r);
    assert forall|i: int| 0 <= i < parts.len() implies is_bit(
        eval(#[trigger] parts[i], t, challenges, r),
    ) by {}
    lemma_eval_and(parts, t, challenges, r);
    let on = eval(enable, t, challenges, r) == 1;
    let kind = lit(BlockContextFieldTag::NumTxs.spec_index() as int);
    let block = cell_at(c.tx_table.value, 0);
    let count = cell_at(c.num_txs, 0);
    lemma_eval_lit(11, t, challenges, r);
    lemma_eval_times(kind, enable, t, challenges, r);
    lemma_eval_times(block, enable, t, challenges, r);
    lemma_eval_times(count, enable, t, challenges, r);
    let mut at: int = 3 * (blocks.len() as int + 1);
    if on {
        assert(eval(parts[0], t, challenges, r) == 1);
        assert(eval(parts[1], t, challenges, r) == 1);
        assert(eval(parts[2], t, challenges, r) == 1);
        let i = lemma_block_row(b, max_txs, max_calldata, n, r);
        let k = lemma_block_listed(b.txs, blocks, i);
        at = 3 * (k + 1) + 0;
        vstd::arithmetic::div_mod::lemma_fundamental_div_mod_converse(at, 3, k + 1, 0);
    }
    lemma_entry_reads(c, b, max_txs, max_calldata, end, blocks, challenges, at);
    let pairs = num_txs_in_block(c);
    assert(pairs.len() == 3);
    assert forall|k: int| 0 <= k < 3 implies eval(#[trigger] pairs[k].0, t, challenges, r) == eval(
        pairs[k].1,
        t,
        challenges,
        at,
    ) by {
        if k == 0 {
        } else if k == 1 {
        } else {
        }
    }
    assert(pairs_match(pairs, pairs.len() as int, t, challenges, r, at));
}

/// The row of the block number of a transaction finds the number of the
/// transactions up to and including its block in the table
/// of block aggregates: each row of the table of the batch finds there what
/// `cum_num_txs_in_block` has it look up.
pub proof fn theorem_cum_num_txs_in_block_found(
    c: &TxCircuitConfig,
    b: Batch,
    max_txs: nat,
    max_calldata: nat,
    end: nat,
    blocks: Seq<u64>,
    challenges: Seq<int>,
    r: int,
)
    requires
        valid(c, b, max_txs, max_calldata),
        field_has_inverses(),
        has_room(c, b, max_txs, max_calldata, end, blocks),
        blocks_of(b.txs, blocks),
        0 <= r < table(c, b, max_txs, max_calldata, end).len(),
    ensures
        lookup_holds(
            cum_num_txs_in_block(c),
            whole(c, b, max_txs, max_calldata, end, blocks),
            challenges,
            r,
        ),
{
    let t = whole(c, b, max_txs, max_calldata, end, blocks);
    crate::tx_circuit::complete::lemma_table_size(c, b, max_txs, max_calldata, end);
    let n = table(c, b, max_txs, max_calldata, end).len() as int;
    vstd::arithmetic::div_mod::lemma_small_mod(r as nat, n as nat);
    let v = wrapped_view(b, max_txs, max_calldata, n, r);
    lemma_block_reads(c, b, max_txs, max_calldata, end, blocks, challenges, r);
    let is_block = cell_at(c.is_tag_block_num, 0);
    let is_padding = cell_at(c.is_padding_tx, 0);
    let q_enable = cell_at(c.tx_table.q_enable, 0);
    let parts = seq![is_block, not_expr(is_padding), q_enable];
    let enable = and_expr(parts);
    lemma_eval_not(is_padding, t, challenges, r);
    assert forall|i: int| 0 <= i < parts.len() implies is_bit(
        eval(#[trigger] parts[i], t, challenges, r),
    ) by {}
    lemma_eval_and(parts, t, challenges, r);
    let on = eval(enable, t, challenges, r) == 1;
    let kind = lit(BlockContextFieldTag::CumNumTxs.spec_index() as int);
    let block = cell_at(c.tx_table.value, 0);
    let count = cell_at(c.cum_num_txs, 0);
    lemma_eval_lit(12, t, challenges, r);
    lemma_eval_times(kind, enable, t, challenges, r);
    lemma_eval_times(block, enable, t, challenges, r);
    lemma_eval_times(count, enable, t, challenges, r);
    let mut at: int = 3 * (blocks.len() as int + 1);
    if on {
        assert(eval(parts[0], t, challenges, r) == 1);
        assert(eval(parts[1], t, challenges, r) == 1);
        assert(eval(parts[2], t, challenges, r) == 1);
        let i = lemma_block_row(b, max_txs, max_calldata, n, r);
        let k = lemma_block_listed(b.txs, blocks, i);
        at = 3 * (k + 1) + 1;
        vstd::arithmetic::div_mod::lemma_fundamental_div_mod_converse(at, 3, k + 1, 1);
    }
    lemma_entry_reads(c, b, max_txs, max_calldata, end, blocks, challenges, at);
    let pairs = cum_num_txs_in_block(c);
    assert(pairs.len() == 3);
    assert forall|k: int| 0 <= k < 3 implies eval(#[trigger] pairs[k].0, t, challenges, r) == eval(
        pairs[k].1,
        t,
        challenges,
        at,
    ) by {
        if k == 0 {
        } else if k == 1 {
        } else {
        }
    }
    assert(pairs_match(pairs, pairs.len() as int, t, challenges, r, at));
}

/// The test whether the block number stays the same from the last row of
/// the header of a transaction to the next row, as it evaluates on that
/// row, with the table of block aggregates beside the table of the batch.
pub proof fn lemma_block_num_unchanged(
    c: &TxCircuitConfig,
    b: Batch,
    max_txs: nat,
    max_calldata: nat,
    end: nat,
    blocks: Seq<u64>,
    challenges: Seq<int>,
    r: int,
)
    requires
        valid(c, b, max_txs, max_calldata),
        field_has_inverses(),
        has_room(c, b, max_txs, max_calldata, end, blocks),
        0 <= r < used(max_txs, max_calldata),
        view_at(b, max_txs, r).tag == TxFieldTag::BlockNumber,
        !view_at(b, max_txs, r).is_padding_tx,
    ensures
        eval(
            c.block_num_unchanged.is_equal_expression,
            whole(c, b, max_txs, max_calldata, end, blocks),
            challenges,
            r,
        ) == (if view_at(b, max_txs, r).next_block_num == view_at(b, max_txs, r).cur_block_num {
            1int
        } else {
            0int
        }),
{
    let t = whole(c, b, max_txs, max_calldata, end, blocks);
    let plain = table(c, b, max_txs, max_calldata, end);
    crate::tx_circuit::complete::lemma_table_size(c, b, max_txs, max_calldata, end);
    let n = plain.len() as int;
    vstd::arithmetic::div_mod::lemma_small_mod(r as nat, n as nat);
    let v = view_at(b, max_txs, r);
    let i = lemma_block_row(b, max_txs, max_calldata, n, r);
    let now = cell_at(c.block_num, 0);
    let next = cell_at(c.block_num, 1);
    reveal(valid);
    lemma_same_cell(c, b, max_txs, max_calldata, end, blocks, challenges, r, 0, c.block_num);
    lemma_same_cell(c, b, max_txs, max_calldata, end, blocks, challenges, r, 1, c.block_num);
    lemma_same_cell(
        c,
        b,
        max_txs,
        max_calldata,
        end,
        blocks,
        challenges,
        r,
        0,
        c.block_num_unchanged.value_inv,
    );
    crate::tx_circuit::complete::lemma_meta_cells(c, b, max_txs, max_calldata, end, challenges, r, 0);
    crate::tx_circuit::complete::lemma_meta_cells(c, b, max_txs, max_calldata, end, challenges, r, 1);
    lemma_block_cells(c, b, max_txs, max_calldata, end, challenges, r, 0);
    crate::semantics::lemma_eval_minus(next, now, t, challenges, r);
    vstd::arithmetic::div_mod::lemma_small_mod(v.cur_block_num as nat, modulus());
    vstd::arithmetic::div_mod::lemma_small_mod(v.next_block_num as nat, modulus());
    let x = fsub(v.next_block_num, v.cur_block_num);
    assert(eval(crate::expr::minus(next, now), t, challenges, r) == x);
    vstd::arithmetic::div_mod::lemma_small_mod(x as nat, modulus());
    crate::constraint_builder::lemma_fsub_zero(v.next_block_num, v.cur_block_num);
    lemma_eval_cell(c.block_num_unchanged.value_inv, 0, t, challenges, r);
    crate::tx_circuit::complete::lemma_is_zero(
        crate::expr::minus(next, now),
        c.block_num_unchanged.value_inv,
        0,
        x,
        t,
        challenges,
        r,
    );
}

/// The last header of a block finds the count of all transactions of the
/// block in the table of block aggregates: each row of the table of the
/// batch finds there what `num_all_txs_in_block` has it look up.
pub proof fn theorem_num_all_txs_in_block_found(
    c: &TxCircuitConfig,
    b: Batch,
    max_txs: nat,
    max_calldata: nat,
    end: nat,
    blocks: Seq<u64>,
    challenges: Seq<int>,
    r: int,
)
    requires
        valid(c, b, max_txs, max_calldata),
        field_has_inverses(),
        has_room(c, b, max_txs, max_calldata, end, blocks),
        blocks_of(b.txs, blocks),
        sorted_by_block(b.txs),
        0 <= r < table(c, b, max_txs, max_calldata, end).len(),
    ensures
        lookup_holds(
            num_all_txs_in_block(c),
            whole(c, b, max_txs, max_calldata, end, blocks),
            challenges,
            r,
        ),
{
    let t = whole(c, b, max_txs, max_calldata, end, blocks);
    crate::tx_circuit::complete::lemma_table_size(c, b, max_txs, max_calldata, end);
    let n = table(c, b, max_txs, max_calldata, end).len() as int;
    vstd::arithmetic::div_mod::lemma_small_mod(r as nat, n as nat);
    let v = wrapped_view(b, max_txs, max_calldata, n, r);
    lemma_block_reads(c, b, max_txs, max_calldata, end, blocks, challenges, r);
    let is_block = cell_at(c.is_tag_block_num, 0);
    let same = c.block_num_unchanged.is_equal_expression;
    let is_padding = cell_at(c.is_padding_tx, 0);
    let parts = seq![is_block, not_expr(same), not_expr(is_padding)];
    let enable = and_expr(parts);
    lemma_eval_not(is_padding, t, challenges, r);
    let kind = lit(BlockContextFieldTag::NumAllTxs.spec_index() as int);
    let block = cell_at(c.tx_table.value, 0);
    let count = cell_at(c.num_all_txs_acc, 0);
    lemma_eval_lit(13, t, challenges, r);
    lemma_eval_times(kind, enable, t, challenges, r);
    lemma_eval_times(block, enable, t, challenges, r);
    lemma_eval_times(count, enable, t, challenges, r);
    let mut at: int = 3 * (blocks.len() as int + 1);
    if v.tag != TxFieldTag::BlockNumber {
        crate::semantics::lemma_eval_and_zero(parts, 0, t, challenges, r);
    } else if v.is_padding_tx {
        crate::semantics::lemma_eval_and_zero(parts, 2, t, challenges, r);
    } else {
        crate::tx_circuit::rows::lemma_view_first(b, max_txs);
        let i = lemma_block_row(b, max_txs, max_calldata, n, r);
        lemma_block_num_unchanged(c, b, max_txs, max_calldata, end, blocks, challenges, r);
        lemma_eval_not(same, t, challenges, r);
        assert forall|i: int| 0 <= i < parts.len() implies is_bit(
            eval(#[trigger] parts[i], t, challenges, r),
        ) by {}
        lemma_eval_and(parts, t, challenges, r);
        if eval(enable, t, challenges, r) == 1 {
            assert(eval(parts[1], t, challenges, r) == 1);
            assert(v.next_block_num != v.cur_block_num);
            let txs = b.txs;
            assert forall|j: int| i < j < txs.len() implies (#[trigger] txs[j]).block_number
                != txs[i].block_number by {
                assert(txs[i].block_number <= txs[i + 1].block_number);
                if i + 1 < j {
                    assert(txs[i + 1].block_number <= txs[j].block_number);
                }
            }
            lemma_last_in_block(txs, i, txs.len());
            let k = lemma_block_listed(txs, blocks, i);
            at = 3 * (k + 1) + 2;
            vstd::arithmetic::div_mod::lemma_fundamental_div_mod_converse(at, 3, k + 1, 2);
        }
    }
    lemma_entry_reads(c, b, max_txs, max_calldata, end, blocks, challenges, at);
    let pairs = num_all_txs_in_block(c);
    assert(pairs.len() == 3);
    assert forall|k: int| 0 <= k < 3 implies eval(#[trigger] pairs[k].0, t, challenges, r) == eval(
        pairs[k].1,
        t,
        challenges,
        at,
    ) by {
        if k == 0 {
        } else if k == 1 {
        } else {
        }
    }
    assert(pairs_match(pairs, pairs.len() as int, t, challenges, r, at));
}

/// Of transactions in the order of their blocks, the block at the place `k`
/// of the list of their blocks is the block of a transaction at the place
/// `k` or after it.
pub proof fn lemma_block_place(txs: Seq<Transaction>, blocks: Seq<u64>, k: int) -> (i: int)
    requires
        blocks_of(txs, blocks),
        sorted_by_block(txs),
        0 <= k < blocks.len(),
    ensures
        k <= i < txs.len(),
        txs[i].block_number == blocks[k],
    decreases k,
{
    assert(crate::tx_circuit::block_table::is_block_of(txs, blocks[k]));
    let i = choose|i: int| 0 <= i < txs.len() && (#[trigger] txs[i]).block_number == blocks[k];
    if k > 0 {
        let before = lemma_block_place(txs, blocks, k - 1);
        assert(blocks[k - 1] < blocks[k]);
        if i <= before {
            assert(txs[i].block_number <= txs[before].block_number);
        }
    }
    i
}

/// The table of block aggregates of transactions in the order of their
/// blocks has room beside the table of the batch, and a row after it.
pub proof fn lemma_has_room(
    c: &TxCircuitConfig,
    b: Batch,
    max_txs: nat,
    max_calldata: nat,
    end: nat,
    blocks: Seq<u64>,
)
    requires
        valid(c, b, max_txs, max_calldata),
        blocks_of(b.txs, blocks),
        sorted_by_block(b.txs),
    ensures
        has_room(c, b, max_txs, max_calldata, end, blocks),
{
    crate::tx_circuit::complete::lemma_table_size(c, b, max_txs, max_calldata, end);
    if blocks.len() > 0 {
        let i = lemma_block_place(b.txs, blocks, blocks.len() - 1);
    }
    assert(blocks.len() <= max_txs);
    assert(3 * (blocks.len() + 1) < 1 + max_txs * TX_LEN + max_calldata) by (nonlinear_arith)
        requires
            blocks.len() <= max_txs,
            max_txs >= 1,
            max_calldata >= 1,
    ;
}

} // verus!
