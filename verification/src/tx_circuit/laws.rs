//! What holds of the table of every batch.

use crate::plonk::extended;
use crate::table::TxFieldTag;
use crate::tx_circuit::accounting::calldata_before;
use crate::tx_circuit::accounting::count_in_block;
use crate::tx_circuit::accounting::count_up_to_block;
use crate::tx_circuit::accounting::lemma_calldata_monotone;
use crate::tx_circuit::assign::lemma_row_cells;
use crate::tx_circuit::batch::Batch;
use crate::tx_circuit::synthesis::calldata_block;
use crate::tx_circuit::synthesis::calldata_row;
use crate::tx_circuit::synthesis::calldata_rows;
use crate::tx_circuit::synthesis::first_row;
use crate::tx_circuit::synthesis::header_row;
use crate::tx_circuit::synthesis::headers;
use crate::tx_circuit::synthesis::lemma_calldata;
use crate::tx_circuit::synthesis::lemma_calldata_len;
use crate::tx_circuit::synthesis::lemma_headers;
use crate::tx_circuit::synthesis::lemma_headers_len;
use crate::tx_circuit::synthesis::mark;
use crate::tx_circuit::synthesis::rows;
use crate::tx_circuit::synthesis::table;
use crate::tx_circuit::synthesis::zero_calldata_rows;
use crate::tx_circuit::TxCircuitConfig;
use crate::tx_circuit::TX_LEN;
use crate::witness::gas_cost;
use crate::witness::horner;
use crate::witness::is_dummy;
use vstd::prelude::*;

verus! {

/// The table is that of a batch that the circuit has room for.
pub open spec fn fits(c: &TxCircuitConfig, b: Batch, max_txs: nat, max_calldata: nat) -> bool {
    &&& c.well_formed()
    &&& b.wf()
    &&& b.all().len() == max_txs
    &&& b.calldata_len() <= max_calldata
}

/// The place in the table of the row `j` of the header of the transaction
/// `i`.
pub open spec fn header_at(i: int, j: int) -> int {
    1 + i * TX_LEN + j
}

/// The place in the table of the row of the calldata byte `k` of the
/// transaction `i`.
pub open spec fn calldata_at(b: Batch, max_txs: nat, i: int, k: int) -> int {
    1 + max_txs * TX_LEN + calldata_before(b.txs, i as nat) + k
}

/// A table that is made of a first row, headers, calldata and empty
/// calldata, in this order.
pub open spec fn laid(
    first: Seq<int>,
    h: Seq<Seq<int>>,
    cd: Seq<Seq<int>>,
    z: Seq<Seq<int>>,
) -> Seq<Seq<int>> {
    seq![first] + h + cd + z
}

/// The rows of a table that is made of four parts are the rows of its parts.
pub proof fn lemma_laid(first: Seq<int>, h: Seq<Seq<int>>, cd: Seq<Seq<int>>, z: Seq<Seq<int>>)
    ensures
        laid(first, h, cd, z).len() == 1 + h.len() + cd.len() + z.len(),
        laid(first, h, cd, z)[0] == first,
        forall|r: int| 0 <= r < h.len() ==> #[trigger] laid(first, h, cd, z)[1 + r] == h[r],
        forall|r: int|
            0 <= r < cd.len() ==> #[trigger] laid(first, h, cd, z)[1 + h.len() + r] == cd[r],
        forall|r: int|
            0 <= r < z.len() ==> #[trigger] laid(first, h, cd, z)[1 + h.len() + cd.len() + r]
                == z[r],
{
}

/// Marking two cells of a table and lengthening it changes no other cell of
/// the rows that it had.
pub proof fn lemma_marks(
    t: Seq<Seq<int>>,
    w: nat,
    m1: int,
    c1: int,
    m2: int,
    c2: int,
    end: nat,
)
    requires
        0 <= m1 < t.len(),
        0 <= m2 < t.len(),
        0 <= c1 < t[m1].len(),
        0 <= c2 < t[m2].len(),
    ensures
        ({
            let e = extended(mark(mark(t, m1, c1), m2, c2), w, end);
            &&& e.len() >= t.len()
            &&& forall|r: int| 0 <= r < t.len() && r != m1 && r != m2 ==> #[trigger] e[r] == t[r]
            &&& forall|r: int, col: int|
                0 <= r < t.len() && 0 <= col < t[r].len() && col != c1 && col != c2
                    ==> #[trigger] e[r][col] == t[r][col]
            &&& forall|r: int| 0 <= r < t.len() ==> (#[trigger] e[r]).len() == t[r].len()
        }),
{
    let t1 = mark(t, m1, c1);
    let t2 = mark(t1, m2, c2);
    let e = extended(t2, w, end);
    assert(t1.len() == t.len());
    assert(t2.len() == t.len());
    assert(t1[m2].len() == t[m2].len());
    assert forall|r: int| 0 <= r < t.len() implies #[trigger] e[r] == t2[r] by {}
    assert forall|r: int| 0 <= r < t.len() implies (#[trigger] e[r]).len() == t[r].len() by {
        assert(e[r] == t2[r]);
    }
    assert forall|r: int, col: int|
        0 <= r < t.len() && 0 <= col < t[r].len() && col != c1 && col != c2 implies #[trigger] e[r][col]
        == t[r][col] by {
        assert(e[r] == t2[r]);
    }
}

/// The place of a byte among the calldata of the first `n` transactions is
/// that of a byte of one of them.
pub proof fn lemma_calldata_place(b: Batch, n: nat, p: int) -> (r: (int, int))
    requires
        n <= b.txs.len(),
        0 <= p < calldata_before(b.txs, n),
    ensures
        0 <= r.0 < n,
        0 <= r.1 < b.txs[r.0].call_data@.len(),
        p == calldata_before(b.txs, r.0 as nat) + r.1,
    decreases n,
{
    if p >= calldata_before(b.txs, (n - 1) as nat) {
        (n - 1, p - calldata_before(b.txs, (n - 1) as nat))
    } else {
        lemma_calldata_place(b, (n - 1) as nat, p)
    }
}

/// Every row of the table up to the end of the room for calldata has the
/// width of the circuit.
pub proof fn lemma_rows_width(c: &TxCircuitConfig, b: Batch, max_txs: nat, max_calldata: nat, r: int)
    requires
        c.well_formed(),
        b.all().len() == max_txs,
        b.calldata_len() <= max_calldata,
        0 <= r < 1 + max_txs * TX_LEN + max_calldata,
    ensures
        rows(c, b, max_calldata).len() == 1 + max_txs * TX_LEN + max_calldata,
        rows(c, b, max_calldata)[r].len() == c.width(),
{
    let z0 = crate::plonk::zero_row(c.width());
    let n = b.txs.len();
    let first = first_row(c, b);
    let h = headers(c, b, max_txs);
    let cd = calldata_rows(c, b, n);
    let z = zero_calldata_rows(c, (max_calldata - b.calldata_len()) as nat);
    lemma_headers_len(c, b, max_txs);
    lemma_calldata_len(c, b, n);
    lemma_laid(first, h, cd, z);
    assert(rows(c, b, max_calldata) == laid(first, h, cd, z));
    let hl = max_txs * TX_LEN;
    assert(hl >= 0) by (nonlinear_arith)
        requires
            hl == max_txs * TX_LEN,
    ;
    if r == 0 {
        lemma_row_cells(c, z0, b.sentinel_view());
    } else if r <= hl {
        let p = r - 1;
        let i = p / (TX_LEN as int);
        let j = p % (TX_LEN as int);
        assert(p == i * TX_LEN + j) by {
            vstd::arithmetic::div_mod::lemma_fundamental_div_mod(p, TX_LEN as int);
        }
        assert(0 <= i < max_txs) by (nonlinear_arith)
            requires
                0 <= p < max_txs * TX_LEN,
                p == i * TX_LEN + j,
                0 <= j < TX_LEN,
        ;
        lemma_headers(c, b, max_txs, i, j);
        lemma_row_cells(c, z0, b.header_view(i, j));
        assert(laid(first, h, cd, z)[1 + p] == h[p]);
    } else if r <= hl + cd.len() {
        let p = r - 1 - hl;
        let (i, k) = lemma_calldata_place(b, n, p);
        lemma_calldata(c, b, n, i, k);
        lemma_row_cells(c, z0, b.calldata_view(i, k));
        assert(laid(first, h, cd, z)[1 + h.len() + p] == cd[p]);
    } else {
        let p = r - 1 - hl - cd.len();
        assert(laid(first, h, cd, z)[1 + h.len() + cd.len() + p] == z[p]);
        crate::tx_circuit::synthesis::lemma_zero_calldata_row(c);
    }
}

/// The table of a batch, up to the end of the room for calldata: its rows
/// are those of the four parts, but for the two marks.
pub proof fn lemma_table_rows(
    c: &TxCircuitConfig,
    b: Batch,
    max_txs: nat,
    max_calldata: nat,
    end: nat,
)
    requires
        c.well_formed(),
        b.all().len() == max_txs,
        b.calldata_len() <= max_calldata,
    ensures
        table(c, b, max_txs, max_calldata, end).len() >= 1 + max_txs * TX_LEN + max_calldata,
        rows(c, b, max_calldata).len() == 1 + max_txs * TX_LEN + max_calldata,
        forall|r: int|
            0 <= r <= max_txs * TX_LEN ==> #[trigger] table(c, b, max_txs, max_calldata, end)[r]
                == rows(c, b, max_calldata)[r],
        forall|r: int, col: int|
            0 <= r < rows(c, b, max_calldata).len() && 0 <= col < c.width() && col
                != c.q_calldata_first.index && col != c.q_calldata_last.index ==> #[trigger] table(
                c,
                b,
                max_txs,
                max_calldata,
                end,
            )[r][col] == rows(c, b, max_calldata)[r][col],
        forall|r: int|
            0 <= r < rows(c, b, max_calldata).len() ==> (#[trigger] table(
                c,
                b,
                max_txs,
                max_calldata,
                end,
            )[r]).len() == c.width(),
{
    let t0 = rows(c, b, max_calldata);
    let hl = max_txs * TX_LEN;
    assert(hl >= 0) by (nonlinear_arith)
        requires
            hl == max_txs * TX_LEN,
    ;
    lemma_rows_width(c, b, max_txs, max_calldata, 0);
    assert forall|r: int| 0 <= r < t0.len() implies (#[trigger] t0[r]).len() == c.width() by {
        lemma_rows_width(c, b, max_txs, max_calldata, r);
    }
    let t = table(c, b, max_txs, max_calldata, end);
    if max_calldata > 0 {
        lemma_marks(
            t0,
            c.width(),
            hl + 1,
            c.q_calldata_first.index as int,
            hl + max_calldata,
            c.q_calldata_last.index as int,
            end,
        );
        assert(t == extended(
            mark(
                mark(t0, hl + 1, c.q_calldata_first.index as int),
                hl + max_calldata,
                c.q_calldata_last.index as int,
            ),
            c.width(),
            end,
        ));
    } else {
        assert(t == extended(t0, c.width(), end));
    }
}

/// The first row of the table is the row that stands for nothing.
pub proof fn lemma_table_first_row(
    c: &TxCircuitConfig,
    b: Batch,
    max_txs: nat,
    max_calldata: nat,
    end: nat,
)
    requires
        c.well_formed(),
        b.all().len() == max_txs,
        b.calldata_len() <= max_calldata,
    ensures
        table(c, b, max_txs, max_calldata, end).len() > 0,
        table(c, b, max_txs, max_calldata, end)[0] == first_row(c, b),
{
    lemma_table_rows(c, b, max_txs, max_calldata, end);
    let h = headers(c, b, max_txs);
    let cd = calldata_rows(c, b, b.txs.len());
    let z = zero_calldata_rows(c, (max_calldata - b.calldata_len()) as nat);
    lemma_laid(first_row(c, b), h, cd, z);
    assert(rows(c, b, max_calldata) == laid(first_row(c, b), h, cd, z));
    assert(max_txs * TX_LEN >= 0) by (nonlinear_arith);
}

/// The rows of the headers are where `header_at` says.
pub proof fn lemma_table_header_row(
    c: &TxCircuitConfig,
    b: Batch,
    max_txs: nat,
    max_calldata: nat,
    end: nat,
    i: int,
    j: int,
)
    requires
        c.well_formed(),
        b.all().len() == max_txs,
        b.calldata_len() <= max_calldata,
        0 <= i < max_txs,
        0 <= j < TX_LEN,
    ensures
        0 < header_at(i, j) < table(c, b, max_txs, max_calldata, end).len(),
        header_at(i, j) <= max_txs * TX_LEN,
        table(c, b, max_txs, max_calldata, end)[header_at(i, j)] == header_row(c, b, i, j),
{
    lemma_table_rows(c, b, max_txs, max_calldata, end);
    lemma_headers(c, b, max_txs, i, j);
    assert(i * TX_LEN + j < max_txs * TX_LEN) by (nonlinear_arith)
        requires
            0 <= i < max_txs,
            0 <= j < TX_LEN,
    ;
    assert(i * TX_LEN >= 0) by (nonlinear_arith)
        requires
            0 <= i,
    ;
    let h = headers(c, b, max_txs);
    let cd = calldata_rows(c, b, b.txs.len());
    let z = zero_calldata_rows(c, (max_calldata - b.calldata_len()) as nat);
    lemma_laid(first_row(c, b), h, cd, z);
    assert(rows(c, b, max_calldata) == laid(first_row(c, b), h, cd, z));
    let p = i * TX_LEN + j;
    assert(laid(first_row(c, b), h, cd, z)[1 + p] == h[p]);
    assert(header_at(i, j) == 1 + p);
}

/// The rows of the calldata are where `calldata_at` says. Marking the first
/// and the last row of calldata changes no other cell.
pub proof fn lemma_table_calldata_row(
    c: &TxCircuitConfig,
    b: Batch,
    max_txs: nat,
    max_calldata: nat,
    end: nat,
    i: int,
    k: int,
)
    requires
        c.well_formed(),
        b.all().len() == max_txs,
        b.calldata_len() <= max_calldata,
        0 <= i < b.txs.len(),
        0 <= k < b.txs[i].call_data@.len(),
    ensures
        max_txs * TX_LEN < calldata_at(b, max_txs, i, k) <= max_txs * TX_LEN + b.calldata_len(),
        calldata_at(b, max_txs, i, k) < table(c, b, max_txs, max_calldata, end).len(),
        table(c, b, max_txs, max_calldata, end)[calldata_at(b, max_txs, i, k)].len() == c.width(),
        forall|col: int|
            0 <= col < c.width() && col != c.q_calldata_first.index && col
                != c.q_calldata_last.index ==> #[trigger] table(
                c,
                b,
                max_txs,
                max_calldata,
                end,
            )[calldata_at(b, max_txs, i, k)][col] == calldata_row(c, b, i, k)[col],
{
    let n = b.txs.len();
    lemma_table_rows(c, b, max_txs, max_calldata, end);
    lemma_headers_len(c, b, max_txs);
    lemma_calldata(c, b, n, i, k);
    lemma_calldata_len(c, b, n);
    lemma_calldata_monotone(b.txs, (i + 1) as nat, n);
    assert(max_txs * TX_LEN >= 0) by (nonlinear_arith);
    let h = headers(c, b, max_txs);
    let cd = calldata_rows(c, b, n);
    let z = zero_calldata_rows(c, (max_calldata - b.calldata_len()) as nat);
    lemma_laid(first_row(c, b), h, cd, z);
    assert(rows(c, b, max_calldata) == laid(first_row(c, b), h, cd, z));
    let p = calldata_before(b.txs, i as nat) + k;
    assert(laid(first_row(c, b), h, cd, z)[1 + h.len() + p] == cd[p]);
    assert(calldata_at(b, max_txs, i, k) == 1 + h.len() + p);
}

/// All rows of the header of a transaction agree on what is computed once
/// for the transaction: its type, the padding flag, the recovered signer,
/// the block number, the messages taken from the queue before it, and the
/// three counts of its block.
pub proof fn law_copy_forward(
    c: &TxCircuitConfig,
    b: Batch,
    max_txs: nat,
    max_calldata: nat,
    end: nat,
    i: int,
    j1: int,
    j2: int,
)
    requires
        fits(c, b, max_txs, max_calldata),
        0 <= i < max_txs,
        0 <= j1 < TX_LEN,
        0 <= j2 < TX_LEN,
    ensures
        ({
            let t = table(c, b, max_txs, max_calldata, end);
            let r1 = t[header_at(i, j1)];
            let r2 = t[header_at(i, j2)];
            &&& r1[c.tx_type.index as int] == r2[c.tx_type.index as int]
            &&& r1[c.is_padding_tx.index as int] == r2[c.is_padding_tx.index as int]
            &&& r1[c.sv_address.index as int] == r2[c.sv_address.index as int]
            &&& r1[c.block_num.index as int] == r2[c.block_num.index as int]
            &&& r1[c.total_l1_popped_before.index as int] == r2[c.total_l1_popped_before.index as int]
            &&& r1[c.num_txs.index as int] == r2[c.num_txs.index as int]
            &&& r1[c.cum_num_txs.index as int] == r2[c.cum_num_txs.index as int]
            &&& r1[c.num_all_txs_acc.index as int] == r2[c.num_all_txs_acc.index as int]
        }),
{
    reveal(Batch::header_view);
    reveal(crate::tx_circuit::batch::field_view);
    lemma_table_header_row(c, b, max_txs, max_calldata, end, i, j1);
    lemma_table_header_row(c, b, max_txs, max_calldata, end, i, j2);
    let z = crate::plonk::zero_row(c.width());
    lemma_row_cells(c, z, b.header_view(i, j1));
    lemma_row_cells(c, z, b.header_view(i, j2));
}

/// The first row of the table belongs to no transaction, every row of the
/// header of the transaction `i` carries the sequence number `i + 1`, and
/// so the first row of each header carries one more than that of the header
/// before it.
pub proof fn law_sequence_numbers(
    c: &TxCircuitConfig,
    b: Batch,
    max_txs: nat,
    max_calldata: nat,
    end: nat,
    i: int,
    j: int,
)
    requires
        fits(c, b, max_txs, max_calldata),
        0 <= i < max_txs,
        0 <= j < TX_LEN,
    ensures
        ({
            let t = table(c, b, max_txs, max_calldata, end);
            &&& t[0][c.tx_table.tx_id.index as int] == 0
            &&& t[header_at(i, j)][c.tx_table.tx_id.index as int] == i + 1
            &&& t[header_at(i, j)][c.tx_table.tag.index as int]
                == crate::tx_circuit::batch::header_tag(j as nat).spec_index()
            &&& i + 1 < max_txs ==> t[header_at(i + 1, 0)][c.tx_table.tx_id.index as int]
                == t[header_at(i, 0)][c.tx_table.tx_id.index as int] + 1
        }),
{
    reveal(Batch::header_view);
    reveal(crate::tx_circuit::batch::field_view);
    let z = crate::plonk::zero_row(c.width());
    lemma_table_first_row(c, b, max_txs, max_calldata, end);
    lemma_row_cells(c, z, b.sentinel_view());
    lemma_table_header_row(c, b, max_txs, max_calldata, end, i, j);
    lemma_row_cells(c, z, b.header_view(i, j));
    lemma_table_header_row(c, b, max_txs, max_calldata, end, i, 0);
    lemma_row_cells(c, z, b.header_view(i, 0));
    if i + 1 < max_txs {
        lemma_table_header_row(c, b, max_txs, max_calldata, end, i + 1, 0);
        lemma_row_cells(c, z, b.header_view(i + 1, 0));
    }
}

/// The row of the calldata byte `k` of the transaction `i` holds the byte at
/// the position `k`, the gas cost and the fingerprint of the calldata up to
/// and including it, and the final marker exactly on the last byte, where the
/// accumulators are those of the whole calldata.
pub proof fn law_calldata_round_trip(
    c: &TxCircuitConfig,
    b: Batch,
    max_txs: nat,
    max_calldata: nat,
    end: nat,
    i: int,
    k: int,
)
    requires
        fits(c, b, max_txs, max_calldata),
        0 <= i < b.txs.len(),
        0 <= k < b.txs[i].call_data@.len(),
    ensures
        ({
            let row = table(c, b, max_txs, max_calldata, end)[calldata_at(b, max_txs, i, k)];
            let data = b.txs[i].call_data@;
            &&& row[c.tx_table.tx_id.index as int] == i + 1
            &&& row[c.tx_table.tag.index as int] == TxFieldTag::CallData.spec_index()
            &&& row[c.tx_table.index.index as int] == k
            &&& row[c.tx_table.value.index as int] == data[k]
            &&& row[c.calldata_byte.index as int] == data[k]
            &&& row[c.calldata_gas_cost_acc.index as int] == gas_cost(data.take(k + 1))
            &&& row[c.calldata_rlc.index as int] == horner(data.take(k + 1), b.keccak_input)
            &&& row[c.is_final.index as int] == (if k + 1 == data.len() {
                1int
            } else {
                0int
            })
            &&& k + 1 == data.len() ==> row[c.calldata_gas_cost_acc.index as int] == gas_cost(data)
                && row[c.calldata_rlc.index as int] == horner(data, b.keccak_input)
        }),
{
    reveal(crate::tx_circuit::batch::calldata_row_view);
    let z = crate::plonk::zero_row(c.width());
    lemma_table_calldata_row(c, b, max_txs, max_calldata, end, i, k);
    lemma_row_cells(c, z, b.calldata_view(i, k));
    let data = b.txs[i].call_data@;
    if k + 1 == data.len() {
        assert(data.take(k + 1) == data);
    }
}

/// Every row of the calldata of the batch is the row of a byte of a
/// transaction: the row at the place `p` of the calldata holds the byte at a
/// position below the length of the calldata of its transaction, and no row
/// lies at a position at or after that length.
pub proof fn law_calldata_rows_are_bytes(
    c: &TxCircuitConfig,
    b: Batch,
    max_txs: nat,
    max_calldata: nat,
    end: nat,
    p: int,
) -> (r: (int, int))
    requires
        fits(c, b, max_txs, max_calldata),
        0 <= p < b.calldata_len(),
    ensures
        0 <= r.0 < b.txs.len(),
        0 <= r.1 < b.txs[r.0].call_data@.len(),
        1 + max_txs * TX_LEN + p == calldata_at(b, max_txs, r.0, r.1),
        ({
            let row = table(c, b, max_txs, max_calldata, end)[1 + max_txs * TX_LEN + p];
            &&& row[c.tx_table.tx_id.index as int] == r.0 + 1
            &&& row[c.tx_table.index.index as int] == r.1
            &&& row[c.tx_table.index.index as int] < b.txs[r.0].call_data@.len()
        }),
{
    let (i, k) = lemma_calldata_place(b, b.txs.len(), p);
    law_calldata_round_trip(c, b, max_txs, max_calldata, end, i, k);
    (i, k)
}

/// A transaction without calldata has no row of calldata, and the rows of
/// its header that hold the length and the gas cost of the calldata read
/// zero.
pub proof fn law_empty_calldata(
    c: &TxCircuitConfig,
    b: Batch,
    max_txs: nat,
    max_calldata: nat,
    end: nat,
    i: int,
)
    requires
        fits(c, b, max_txs, max_calldata),
        0 <= i < b.txs.len(),
        b.txs[i].call_data@.len() == 0,
    ensures
        calldata_block(c, b, i).len() == 0,
        calldata_before(b.txs, (i + 1) as nat) == calldata_before(b.txs, i as nat),
        ({
            let t = table(c, b, max_txs, max_calldata, end);
            &&& t[header_at(i, 8)][c.tx_table.tag.index as int]
                == TxFieldTag::CallDataLength.spec_index()
            &&& t[header_at(i, 8)][c.tx_table.value.index as int] == 0
            &&& t[header_at(i, 9)][c.tx_table.tag.index as int]
                == TxFieldTag::CallDataGasCost.spec_index()
            &&& t[header_at(i, 9)][c.tx_table.value.index as int] == 0
        }),
{
    reveal(Batch::header_view);
    reveal(crate::tx_circuit::batch::field_view);
    let z = crate::plonk::zero_row(c.width());
    lemma_table_header_row(c, b, max_txs, max_calldata, end, i, 8);
    lemma_table_header_row(c, b, max_txs, max_calldata, end, i, 9);
    lemma_row_cells(c, z, b.header_view(i, 8));
    lemma_row_cells(c, z, b.header_view(i, 9));
    assert(b.all()[i] == b.txs[i]);
}

/// The fingerprint of a string of zero bytes is zero.
pub proof fn lemma_horner_zeros(bytes: Seq<u8>, base: int)
    requires
        forall|i: int| 0 <= i < bytes.len() ==> bytes[i] == 0,
    ensures
        horner(bytes, base) == 0,
    decreases bytes.len(),
{
    if bytes.len() > 0 {
        lemma_horner_zeros(bytes.drop_last(), base);
        crate::constraint_builder::lemma_fmul_zero(base);
    }
}

/// The rows of the header of a padding carry the padding flag and count
/// nothing for any block; the sender of a padding that `dummy` made is zero.
/// The counts on the rows of a transaction are those of the transactions
/// alone.
pub proof fn law_padding(
    c: &TxCircuitConfig,
    b: Batch,
    max_txs: nat,
    max_calldata: nat,
    end: nat,
    i: int,
    j: int,
    chain_id: u64,
)
    requires
        fits(c, b, max_txs, max_calldata),
        0 <= i < max_txs,
        0 <= j < TX_LEN,
    ensures
        ({
            let t = table(c, b, max_txs, max_calldata, end);
            let row = t[header_at(i, j)];
            &&& i >= b.txs.len() ==> row[c.is_padding_tx.index as int] == 1
                && row[c.num_txs.index as int] == 0 && row[c.cum_num_txs.index as int] == 0
            &&& i >= b.txs.len() && is_dummy(b.all()[i], chain_id, i + 1) ==> t[header_at(
                i,
                3,
            )][c.tx_table.tag.index as int] == TxFieldTag::CallerAddress.spec_index() && t[header_at(
                i,
                3,
            )][c.tx_table.value.index as int] == 0
            &&& i < b.txs.len() ==> row[c.is_padding_tx.index as int] == 0
                && row[c.num_txs.index as int] == count_in_block(
                b.txs,
                b.txs[i].block_number,
                b.txs.len(),
            ) && row[c.cum_num_txs.index as int] == count_up_to_block(
                b.txs,
                b.txs[i].block_number,
                b.txs.len(),
            )
        }),
{
    reveal(Batch::header_view);
    reveal(crate::tx_circuit::batch::field_view);
    let z = crate::plonk::zero_row(c.width());
    lemma_table_header_row(c, b, max_txs, max_calldata, end, i, j);
    lemma_row_cells(c, z, b.header_view(i, j));
    lemma_table_header_row(c, b, max_txs, max_calldata, end, i, 3);
    lemma_row_cells(c, z, b.header_view(i, 3));
    if i >= b.txs.len() && is_dummy(b.all()[i], chain_id, i + 1) {
        lemma_horner_zeros(b.all()[i].caller_address@, 256);
    }
    if i < b.txs.len() {
        assert(b.all()[i] == b.txs[i]);
    }
}

} // verus!
